use std::str::FromStr;

use cargo_scholium::arguments::{parse_mark_attrs, Arguments, Severity};
use cargo_scholium::elements::MarkError;

fn parse(input: &str) -> Result<Arguments, MarkError> {
    let tokens = proc_macro2::TokenStream::from_str(input).unwrap();
    parse_mark_attrs(tokens)
}

fn check_ok(
    input: &str,
    severity: Option<Severity>,
    report_ids: &[(&str, &str, usize, usize)],
    see_also: &[&str],
    reason: &str,
) {
    let args = parse(input).unwrap_or_else(|e| panic!("{input}: {e:?}"));
    assert_eq!(args.severity, severity, "{input}");
    let ids: Vec<(&str, &str, usize, usize)> = args
        .report_ids
        .iter()
        .map(|r| (r.group.as_str(), r.report_id.as_str(), r.span.start.column, r.span.end.column))
        .collect();
    assert_eq!(ids, report_ids, "{input}");
    assert_eq!(args.see_also, see_also, "{input}");
    assert_eq!(args.reason, reason, "{input}");
}

fn check_err(input: &str, message: &str, start: usize, end: usize) {
    let error = parse(input).expect_err(input);
    assert!(error.message.contains(message), "{input}: {error:?}");
    assert_eq!(error.span.start.line, 1, "{input}");
    assert_eq!(error.span.end.line, 1, "{input}");
    assert_eq!((error.span.start.column, error.span.end.column), (start, end), "{input}: {error:?}");
}

#[test]
fn full_valid_error() {
    check_ok(
        "error, a::b, c::d, reason=\"42\"",
        Some(Severity::Error),
        &[("a", "b", 7, 11), ("c", "d", 13, 17)],
        &[],
        "42",
    );
}

#[test]
fn full_valid_warning() {
    check_ok(
        "warning, a::b, c::d, reason=\"42\"",
        Some(Severity::Warning),
        &[("a", "b", 9, 13), ("c", "d", 15, 19)],
        &[],
        "42",
    );
}

#[test]
fn full_valid_info() {
    check_ok(
        "info, a::b, c::d, reason=\"42\"",
        Some(Severity::Info),
        &[("a", "b", 6, 10), ("c", "d", 12, 16)],
        &[],
        "42",
    );
}

#[test]
fn full_valid_debug() {
    check_ok(
        "debug, a::b, c::d, reason=\"\"",
        Some(Severity::Debug),
        &[("a", "b", 7, 11), ("c", "d", 13, 17)],
        &[],
        "",
    );
}

#[test]
fn full_valid_trace() {
    check_ok(
        "trace, a::b, c::d, reason=\"42\"",
        Some(Severity::Trace),
        &[("a", "b", 7, 11), ("c", "d", 13, 17)],
        &[],
        "42",
    );
}

#[test]
fn no_severity_valid() {
    check_ok("x::y, p::q, reason=\"0\"", None, &[("x", "y", 0, 4), ("p", "q", 6, 10)], &[], "0");
}

#[test]
fn single_path_valid() {
    check_ok("a::b, reason=\"7\"", None, &[("a", "b", 0, 4)], &[], "7");
}

#[test]
fn multiple_paths() {
    check_ok(
        "p::q, r::s, t::u, reason=\"12345\"",
        None,
        &[("p", "q", 0, 4), ("r", "s", 6, 10), ("t", "u", 12, 16)],
        &[],
        "12345",
    );
}

#[test]
fn see_also_before_reason() {
    check_ok(
        "p::q, see_also=\"data\", see_also=\"\", reason=\"12345\"",
        None,
        &[("p", "q", 0, 4)],
        &["data", ""],
        "12345",
    );
}

#[test]
fn see_also_after_reason() {
    check_ok(
        "p::q, reason=\"12345\", see_also=\"data\", see_also=\"\"",
        None,
        &[("p", "q", 0, 4)],
        &["data", ""],
        "12345",
    );
}

#[test]
fn see_also_mixed_reason() {
    check_ok(
        "p::q, see_also=\"data\", reason=\"12345\", see_also=\"\"",
        None,
        &[("p", "q", 0, 4)],
        &["data", ""],
        "12345",
    );
}

#[test]
fn missing_reason() {
    check_err("info, a::b", "expected order of elements", 0, 10);
}

#[test]
fn order_paths_before_reason() {
    check_err("info, reason=\"5\", a::b", "expected order of elements", 6, 12);
}

#[test]
fn order_severity_after_paths() {
    check_err("a::b, info, reason=\"5\"", "expected order of elements", 6, 10);
}

#[test]
fn order_see_also_before_paths() {
    check_err("see_also=\"data\", a::b, reason = \"reason\"", "expected order of elements", 0, 8);
}

#[test]
fn duplicate_reason() {
    check_err("a::b, reason=\"reason\", reason=\"other\"", "expected order of elements", 23, 29);
}

#[test]
fn element_after_reason() {
    check_err("a::b, reason=\"reason\", info", "expected order of elements", 23, 27);
}

#[test]
fn unknown_severity_value() {
    check_err("not_exist, a::b, reason=\"reason\"", "unable to parse severity", 0, 9);
}

#[test]
fn wrong_key() {
    check_err("a::b, x=\"data\"", "unknown element", 6, 7);
}

#[test]
fn path_three_segments() {
    check_err("info, a::b::c, reason=\"reason\"", "expected exactly 2 path segments", 6, 13);
}

#[test]
fn reason_without_paths() {
    check_err("reason=\"reason\"", "expected order of elements", 0, 6);
}

#[test]
fn duplicate_severity() {
    check_err("info, trace, a::b, reason=\"reason\"", "expected order of elements", 6, 11);
}

#[test]
fn severity_only() {
    check_err("info", "expected order of elements", 0, 4);
}

#[test]
fn empty_input() {
    check_err("", "expected order of elements", 0, 0);
}

#[test]
fn int_literal() {
    check_err("a::b, reason=99999999999999999999999999999", "expected string literal", 13, 42);
}

#[test]
fn absolute_path_err() {
    check_err("::a::b, reason=\"42\"", "expected identifier", 0, 1);
}

#[test]
fn underscore_group() {
    check_err("error, _a::b, reason=\"42\"", "report id should not contain", 7, 12);
}

#[test]
fn underscore_report_id() {
    check_err("error, a::_b, reason=\"42\"", "report id should not contain", 7, 12);
}

#[test]
fn trailing_comma_is_accepted() {
    check_ok("a::b, reason=\"r\",", None, &[("a", "b", 0, 4)], &[], "r");
}

#[test]
fn missing_comma_is_reported() {
    check_err("a::b reason=\"r\"", "expected `,`", 5, 11);
}

#[test]
fn keyword_severity_is_refused() {
    check_err("true, a::b, reason=\"r\"", "expected identifier, found keyword `true`", 0, 4);
}

#[test]
fn missing_value_at_end() {
    let error = parse("a::b, reason=").expect_err("no value");
    assert!(error.message.starts_with("unexpected end of input, expected string literal"));
}

#[test]
fn escaped_reason_is_unescaped() {
    check_ok("a::b, reason=\"line\\nnext \\\"q\\\"\"", None, &[("a", "b", 0, 4)], &[], "line\nnext \"q\"");
}

#[test]
fn raw_string_reason() {
    check_ok("a::b, reason=r#\"raw \"x\"\"#", None, &[("a", "b", 0, 4)], &[], "raw \"x\"");
}

#[test]
fn severity_names_round_trip() {
    for (name, severity) in [
        ("error", Severity::Error),
        ("warning", Severity::Warning),
        ("info", Severity::Info),
        ("debug", Severity::Debug),
        ("trace", Severity::Trace),
    ] {
        assert_eq!(Severity::try_from_ident(name), Ok(severity));
        assert_eq!(severity.to_string(), name);
    }
    assert_eq!(Severity::try_from_ident("Error"), Err(()));
}

#[test]
fn report_id_display() {
    let args = parse("g::i, reason=\"r\"").unwrap();
    assert_eq!(args.report_ids[0].to_string(), "g::i");
}

#[test]
fn generic_arguments_are_skipped() {
    check_ok("a::b<T>, reason=\"x\"", None, &[("a", "b", 0, 7)], &[], "x");
    check_ok(
        "a::b::<Vec<u8>>, c::d, reason=\"x\"",
        None,
        &[("a", "b", 0, 15), ("c", "d", 17, 21)],
        &[],
        "x",
    );
    check_ok("a::b<Fn() -> u8>, reason=\"x\"", None, &[("a", "b", 0, 16)], &[], "x");
}

#[test]
fn unclosed_generic_arguments() {
    let error = parse("a::b<T, reason=\"x\"").expect_err("unclosed");
    assert!(error.message.contains("expected `>`"), "{error:?}");
    // An element is a path only when its second token is `::`.
    check_err("a<T>::b, reason=\"x\"", "expected `,`", 1, 2);
    // Generic arguments inside a path leave three segments.
    check_err("a::b<T>::c, reason=\"x\"", "expected exactly 2 path segments", 0, 10);
}

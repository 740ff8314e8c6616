use cargo_scholium::config::ReportDefinition;
use cargo_scholium::ident::{ReportId, Severity};
use cargo_scholium::reports::{
    annotations_of, collect_annotations, content_line, gather_reports, path_is, process_reports,
    AttributeArguments, FileAttribute, LocatedError, ProcessError, Raw, RawItem, ReportAction,
    SourceFailure,
};
use cargo_scholium::tokens::{LineColumn, PunctSpacing, SpanRange, Token};

fn span(line: usize, start: usize, end: usize) -> SpanRange {
    SpanRange { start: LineColumn { line, column: start }, end: LineColumn { line, column: end } }
}

fn ident(text: &str, column: usize) -> Token {
    Token::Ident { text: text.to_owned(), span: span(1, column, column + text.len()) }
}

fn punct(ch: char, spacing: PunctSpacing, column: usize) -> Token {
    Token::Punct { ch, spacing, span: span(1, column, column + 1) }
}

fn literal(text: &str, column: usize) -> Token {
    Token::Literal { text: text.to_owned(), span: span(1, column, column + text.len()) }
}

/// The tokens of `lint::alpha, reason = "because"` written from column 17.
fn alpha_tokens() -> Vec<Token> {
    vec![
        ident("lint", 17),
        punct(':', PunctSpacing::Joint, 21),
        punct(':', PunctSpacing::Alone, 22),
        ident("alpha", 23),
        punct(',', PunctSpacing::Alone, 28),
        ident("reason", 30),
        punct('=', PunctSpacing::Alone, 37),
        literal("\"because\"", 39),
    ]
}

fn attribute(path: &[&str], arguments: Result<AttributeArguments, SourceFailure>) -> FileAttribute {
    FileAttribute { path: path.iter().map(|s| s.to_string()).collect(), arguments }
}

fn rid(s: &str) -> ReportId {
    ReportId::from_str(s).unwrap()
}

const SOURCE: &str = "#[scholium::mark(warning, lint::alpha, reason = \"because\")]
fn a() {}

#[scholium::mark(lint::beta, lint::gamma, see_also = \"x\", reason = \"why\")]
#[scholium::mark]
#[other::attr(foo)]
struct B;
";

#[test]
fn lines_of_content() {
    let content = "first\r\nsecond\n\nfourth\r";
    assert_eq!(content_line(content, 1), "first");
    assert_eq!(content_line(content, 2), "second");
    assert_eq!(content_line(content, 3), "");
    assert_eq!(content_line(content, 4), "fourth\r");
    assert_eq!(content_line(content, 5), "");
    assert_eq!(content_line(content, 0), "");
    assert_eq!(content_line("a\n", 2), "");
    assert_eq!(content_line("", 1), "");
}

#[test]
fn mark_path() {
    assert!(path_is(&vec!["scholium".to_owned(), "mark".to_owned()]));
    assert!(!path_is(&vec!["mark".to_owned()]));
    assert!(!path_is(&vec!["scholium".to_owned(), "marks".to_owned()]));
    assert!(!path_is(&vec!["r#scholium".to_owned(), "mark".to_owned()]));
}

#[test]
fn annotations_of_a_file() {
    let raw = collect_annotations(SOURCE, &vec![]).unwrap();
    let ids: Vec<(String, Option<Severity>, usize, Vec<String>, String)> = raw
        .reports
        .iter()
        .map(|r| (r.report_id.to_string(), r.severity, r.location.line, r.see_also.clone(), r.reason.clone()))
        .collect();
    assert_eq!(
        ids,
        vec![
            ("lint::alpha".to_owned(), Some(Severity::Warning), 1, vec![], "because".to_owned()),
            ("lint::beta".to_owned(), None, 4, vec!["x".to_owned()], "why".to_owned()),
            ("lint::gamma".to_owned(), None, 4, vec!["x".to_owned()], "why".to_owned()),
        ]
    );
    assert_eq!(raw.errors.len(), 1);
    assert_eq!(raw.errors[0].line, "#[scholium::mark]");
    assert_eq!(raw.errors[0].location, LineColumn { line: 5, column: 2 });
    assert!(raw.errors[0].message.contains("expected attribute arguments in parentheses"));
}

#[test]
fn suppressed_annotations_are_dropped() {
    let raw = collect_annotations(SOURCE, &vec![rid("lint::beta")]).unwrap();
    let ids: Vec<String> = raw.reports.iter().map(|r| r.report_id.to_string()).collect();
    assert_eq!(ids, vec!["lint::alpha", "lint::gamma"]);
}

#[test]
fn syntax_error_of_a_file() {
    let content = "fn a() {}\nfn b( {}\n";
    match collect_annotations(content, &vec![]) {
        Err(ProcessError::Syn(line, location, message)) => {
            assert_eq!(location.line, 2);
            assert_eq!(line, "fn b( {}");
            assert!(!message.is_empty());
        },
        other => panic!("{other:?}"),
    }
}

#[test]
fn malformed_mark_arguments() {
    let content = "#[scholium::mark(lint::x)]\nfn f() {}\n";
    let raw = collect_annotations(content, &vec![]).unwrap();
    assert!(raw.reports.is_empty());
    assert_eq!(raw.errors.len(), 1);
    assert_eq!(raw.errors[0].line, "#[scholium::mark(lint::x)]");
}

#[test]
fn invalid_report_id_in_marks() {
    let marks = vec![Ok(cargo_scholium::arguments::Arguments {
        severity: None,
        report_ids: vec![cargo_scholium::arguments::ReportId {
            group: "1bad".to_owned(),
            report_id: "x".to_owned(),
            span: cargo_scholium::tokens::SpanRange {
                start: LineColumn { line: 3, column: 4 },
                end: LineColumn { line: 3, column: 9 },
            },
        }],
        see_also: vec![],
        reason: "r".to_owned(),
    })];
    match gather_reports("a\nb\nc\n", &marks, &vec![]) {
        Err(ProcessError::ReportId(location, _)) => assert_eq!(location, LineColumn { line: 3, column: 4 }),
        other => panic!("{other:?}"),
    }
}

fn definition(severity: Severity, long: Option<&str>) -> ReportDefinition {
    ReportDefinition {
        severity,
        display_name: "Alpha".to_owned(),
        short_message: "short".to_owned(),
        long_message: long.map(str::to_owned),
        documentation: "docs".to_owned(),
    }
}

fn item(id: &str, severity: Option<Severity>) -> RawItem {
    RawItem {
        severity,
        report_id: rid(id),
        location: LineColumn { line: 7, column: 3 },
        see_also: vec!["https://a".to_owned(), "b\"c".to_owned()],
        reason: "why".to_owned(),
    }
}

#[test]
fn actions_for_reports() {
    let raw = Raw {
        reports: vec![item("lint::alpha", None), item("lint::unknown", Some(Severity::Error))],
        errors: vec![LocatedError {
            line: "#[scholium::mark]".to_owned(),
            location: LineColumn { line: 1, column: 2 },
            message: "bad".to_owned(),
        }],
    };
    let definitions = vec![(rid("lint::alpha"), definition(Severity::Warning, Some("long")))];
    let actions = process_reports(Ok(raw.clone()), None, &definitions, &vec![], true);
    assert_eq!(actions.len(), 3);
    assert!(matches!(&actions[0], ReportAction::Malformed(e) if e.message == "bad"));
    match &actions[1] {
        ReportAction::Found { severity, info, display_name, see_also, reason, .. } => {
            assert_eq!(*severity, Severity::Warning);
            assert_eq!(info, "long");
            assert_eq!(display_name, "Alpha");
            assert_eq!(see_also, r#"["https://a","b\"c"]"#);
            assert_eq!(reason, "why");
        },
        other => panic!("{other:?}"),
    }
    assert!(matches!(&actions[2], ReportAction::UnknownNotFound { report_id, .. } if report_id.to_string() == "lint::unknown"));

    let actions = process_reports(Ok(raw), Some(Severity::Info), &definitions, &vec![rid("lint::alpha")], false);
    match &actions[1] {
        ReportAction::Found { severity, info, .. } => {
            assert_eq!(*severity, Severity::Suppress);
            assert_eq!(info, "short");
        },
        other => panic!("{other:?}"),
    }
    match &actions[2] {
        ReportAction::Unknown { severity, .. } => assert_eq!(*severity, Severity::Error),
        other => panic!("{other:?}"),
    }
}

#[test]
fn actions_for_file_errors() {
    let actions = process_reports(Err(ProcessError::Io("gone".to_owned())), None, &vec![], &vec![], false);
    assert_eq!(actions, vec![ReportAction::ReadFailed("gone".to_owned())]);
    let actions = process_reports(
        Err(ProcessError::Syn("x".to_owned(), LineColumn { line: 1, column: 0 }, "m".to_owned())),
        None,
        &vec![],
        &vec![],
        false,
    );
    assert_eq!(actions.len(), 1);
    assert!(matches!(&actions[0], ReportAction::SyntaxError(e) if e.line == "x"));
}

#[test]
fn unknown_reports_take_the_unknown_severity() {
    let raw = Raw { reports: vec![item("misc::nothing", None)], errors: vec![] };
    let actions = process_reports(Ok(raw), Some(Severity::Trace), &vec![], &vec![], false);
    match &actions[0] {
        ReportAction::Unknown { severity, report_id, reason, .. } => {
            assert_eq!(*severity, Severity::Trace);
            assert_eq!(report_id.to_string(), "misc::nothing");
            assert_eq!(reason, "why");
        },
        other => panic!("{other:?}"),
    }
}

#[test]
fn suppressed_ids_never_reach_the_output() {
    let suppressed = vec![rid("lint::beta")];
    let result = collect_annotations(SOURCE, &suppressed);
    let actions = process_reports(result, Some(Severity::Info), &vec![], &suppressed, false);
    let ids: Vec<String> = actions
        .iter()
        .filter_map(|a| match a {
            ReportAction::Unknown { report_id, .. }
            | ReportAction::Found { report_id, .. }
            | ReportAction::UnknownNotFound { report_id, .. } => Some(report_id.to_string()),
            _ => None,
        })
        .collect();
    assert_eq!(ids, vec!["lint::alpha", "lint::gamma"]);
    assert_eq!(actions.len(), 3);
}

#[test]
fn annotations_of_given_attributes() {
    let content = "#[scholium::mark(lint::alpha, reason = \"because\")]\nfn a() {}\n";
    let arguments = AttributeArguments { tokens: alpha_tokens(), scope: span(1, 48, 49), call_site: span(1, 0, 0) };
    let same = AttributeArguments { tokens: alpha_tokens(), scope: span(1, 48, 49), call_site: span(1, 0, 0) };
    let attributes = vec![
        attribute(&["other", "attr"], Ok(same)),
        attribute(&["scholium", "mark"], Ok(arguments)),
        attribute(&["mark"], Err(SourceFailure { location: LineColumn { line: 2, column: 0 }, message: "x".to_owned() })),
    ];
    let raw = annotations_of(content, Ok(attributes), &vec![]).unwrap();
    assert!(raw.errors.is_empty());
    assert_eq!(
        raw.reports,
        vec![RawItem {
            severity: None,
            report_id: rid("lint::alpha"),
            location: LineColumn { line: 1, column: 17 },
            see_also: vec![],
            reason: "because".to_owned(),
        }]
    );
}

#[test]
fn annotations_of_a_suppressed_mark() {
    let arguments = AttributeArguments { tokens: alpha_tokens(), scope: span(1, 48, 49), call_site: span(1, 0, 0) };
    let attributes = vec![attribute(&["scholium", "mark"], Ok(arguments))];
    let raw = annotations_of("x\n", Ok(attributes), &vec![rid("lint::alpha")]).unwrap();
    assert!(raw.reports.is_empty());
    assert!(raw.errors.is_empty());
}

#[test]
fn annotations_of_a_mark_without_arguments() {
    let content = "fn a() {}\n#[scholium::mark]\nstruct B;\n";
    let failure = SourceFailure { location: LineColumn { line: 2, column: 2 }, message: "expected parentheses".to_owned() };
    let attributes = vec![attribute(&["scholium", "mark"], Err(failure))];
    let raw = annotations_of(content, Ok(attributes), &vec![]).unwrap();
    assert!(raw.reports.is_empty());
    assert_eq!(
        raw.errors,
        vec![LocatedError {
            line: "#[scholium::mark]".to_owned(),
            location: LineColumn { line: 2, column: 2 },
            message: "expected parentheses".to_owned(),
        }]
    );
}

#[test]
fn annotations_of_a_file_that_does_not_parse() {
    let content = "fn a() {}\nlet x\n";
    let failure = SourceFailure { location: LineColumn { line: 2, column: 4 }, message: "expected item".to_owned() };
    match annotations_of(content, Err(failure), &vec![]) {
        Err(ProcessError::Syn(line, location, message)) => {
            assert_eq!(line, "let x");
            assert_eq!(location, LineColumn { line: 2, column: 4 });
            assert_eq!(message, "expected item");
        },
        other => panic!("{other:?}"),
    }
}

#[test]
fn see_also_is_written_as_escaped_json() {
    let mut unusual = item("misc::escapes", None);
    unusual.see_also = vec!["a\\b".to_owned(), "t\tn\nr\r".to_owned(), "\u{1}\u{1f}é".to_owned(), String::new()];
    let raw = Raw { reports: vec![unusual], errors: vec![] };
    let actions = process_reports(Ok(raw), Some(Severity::Info), &vec![], &vec![], false);
    match &actions[0] {
        ReportAction::Unknown { see_also, .. } => {
            assert_eq!(see_also, r#"["a\\b","t\tn\nr\r","\u0001\u001fé",""]"#);
        },
        other => panic!("{other:?}"),
    }
}

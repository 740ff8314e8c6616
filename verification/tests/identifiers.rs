use cargo_scholium::ident::{
    Context, Ident, IdentError, Prefix, PrefixError, ReportId, ReportIdError, Severity,
};

fn underscore(s: &str) -> IdentError {
    IdentError::Underscore(s.to_owned())
}

fn unicode(s: &str) -> IdentError {
    IdentError::Unicode(s.to_owned())
}

#[test]
fn ident_valid() {
    for (input, expected) in [
        ("x", "x"),
        ("ident", "ident"),
        ("x_", "x_"),
        ("x_1234", "x_1234"),
        ("ß_1234", "ß_1234"),
        ("r#true", "true"),
        ("r#false", "false"),
    ] {
        let ident = Ident::from_str(input).unwrap_or_else(|e| panic!("{input}: {e:?}"));
        assert_eq!(ident.as_str(), expected);
    }
}

#[test]
fn ident_error() {
    assert_eq!(Ident::from_str(""), Err(IdentError::Empty));
    for input in ["_", "_x1234", "_ß1234"] {
        assert_eq!(Ident::from_str(input), Err(underscore(input)));
    }
    for input in ["1234", "x t", "x ", " x"] {
        assert_eq!(Ident::from_str(input), Err(unicode(input)));
    }
}

#[test]
fn ident_error_messages() {
    assert_eq!(IdentError::Empty.to_string(), "identifier cannot be an empty string");
    assert_eq!(
        underscore("_x").to_string(),
        "identifier cannot start with an underscore (`_`) character: \"_x\""
    );
    assert_eq!(unicode("1\"x").to_string(), "unable recognise as unicode identifier: \"1\\\"x\"");
}

#[test]
fn report_id_valid() {
    for (input, expected) in [
        ("group::y", "group::y"),
        ("false::true", "false::true"),
        ("r#false::r#true", "false::true"),
        ("group_123::id_456", "group_123::id_456"),
        ("ß::łąka", "ß::łąka"),
    ] {
        let report_id = ReportId::from_str(input).unwrap_or_else(|e| panic!("{input}: {e:?}"));
        assert_eq!(report_id.to_string(), expected);
    }
}

#[test]
fn report_id_valid_from_parts() {
    for (group, id, expected) in [
        ("group", "id", "group::id"),
        ("false", "true", "false::true"),
        ("r#false", "r#true", "false::true"),
        ("group_123", "id_456", "group_123::id_456"),
        ("ß", "łąka", "ß::łąka"),
    ] {
        let report_id = ReportId::from_parts_raw(group, id).unwrap();
        assert_eq!(report_id.to_string(), expected);
        assert_eq!(report_id.group().as_str(), expected.split("::").next().unwrap());
    }
}

#[test]
fn report_id_error() {
    let cases = [
        ("", ReportIdError::Empty(Context::Group)),
        ("::", ReportIdError::Empty(Context::Group)),
        ("::id", ReportIdError::Empty(Context::Group)),
        ("group", ReportIdError::Empty(Context::Id)),
        ("group::", ReportIdError::Empty(Context::Id)),
        ("1group", ReportIdError::Ident(Context::Group, unicode("1group"))),
        ("1group::id", ReportIdError::Ident(Context::Group, unicode("1group"))),
        ("1group::_id", ReportIdError::Ident(Context::Group, unicode("1group"))),
        ("group::1id", ReportIdError::Ident(Context::Id, unicode("1id"))),
        ("_group", ReportIdError::Ident(Context::Group, underscore("_group"))),
        ("_group::id", ReportIdError::Ident(Context::Group, underscore("_group"))),
        ("group::_id", ReportIdError::Ident(Context::Id, underscore("_id"))),
    ];
    for (input, expected) in cases {
        assert_eq!(ReportId::from_str(input), Err(expected), "{input}");
    }
}

#[test]
fn report_id_error_from_parts() {
    let cases = [
        ("", "", ReportIdError::Empty(Context::Group)),
        ("", "id", ReportIdError::Empty(Context::Group)),
        ("g", "", ReportIdError::Empty(Context::Id)),
        ("1group", "", ReportIdError::Ident(Context::Group, unicode("1group"))),
        ("1group", "_id", ReportIdError::Ident(Context::Group, unicode("1group"))),
        ("1group", "id", ReportIdError::Ident(Context::Group, unicode("1group"))),
        ("group", "1id", ReportIdError::Ident(Context::Id, unicode("1id"))),
        ("_group", "", ReportIdError::Ident(Context::Group, underscore("_group"))),
        ("_group", "id", ReportIdError::Ident(Context::Group, underscore("_group"))),
        ("_group", "_id", ReportIdError::Ident(Context::Group, underscore("_group"))),
        ("group", "_id", ReportIdError::Ident(Context::Id, underscore("_id"))),
    ];
    for (group, id, expected) in cases {
        assert_eq!(ReportId::from_parts_raw(group, id), Err(expected), "{group} {id}");
    }
}

#[test]
fn report_id_starts_with() {
    let cases = [
        ("group", true),
        ("group::", true),
        ("group::i", true),
        ("group::id", true),
        ("group::o", false),
        ("group::other", false),
        ("other", false),
        ("other::", false),
        ("other::i", false),
        ("other::id", false),
    ];
    let rid = ReportId::from_str("group::id").unwrap();
    for (prefix, expected) in cases {
        let pfx = Prefix::from_str(prefix).unwrap();
        assert_eq!(rid.starts_with(&pfx), expected, "{prefix}");
    }
}

#[test]
fn prefix_valid() {
    for (input, expected) in [
        ("x", "x"),
        ("x::y", "x::y"),
        ("x_123::y_456", "x_123::y_456"),
        ("false::true", "false::true"),
        ("r#false::r#true", "false::true"),
        ("ß::łąka", "ß::łąka"),
        ("group::", "group"),
    ] {
        let prefix = Prefix::from_str(input).unwrap_or_else(|e| panic!("{input}: {e:?}"));
        assert_eq!(prefix.to_string(), expected);
    }
}

#[test]
fn prefix_valid_from_parts() {
    for (group, id, expected) in [
        ("x", None, "x"),
        ("x", Some(""), "x"),
        ("x", Some("y"), "x::y"),
        ("false", Some("true"), "false::true"),
        ("r#false", Some("r#true"), "false::true"),
        ("x_123", Some("y_456"), "x_123::y_456"),
        ("ß", Some("łąka"), "ß::łąka"),
    ] {
        let prefix = Prefix::from_parts_raw(group, id).unwrap();
        assert_eq!(prefix.to_string(), expected);
        assert_eq!(prefix.group().as_str(), expected.split("::").next().unwrap());
        assert_eq!(prefix.id().map(|i| i.as_str().to_owned()), expected.split("::").nth(1).map(str::to_owned));
    }
}

#[test]
fn prefix_error() {
    let cases = [
        ("", PrefixError::Empty),
        ("::", PrefixError::Empty),
        ("::id", PrefixError::Empty),
        ("_group", PrefixError::Ident(Context::Group, underscore("_group"))),
        ("_group::id", PrefixError::Ident(Context::Group, underscore("_group"))),
        ("_group::_id", PrefixError::Ident(Context::Group, underscore("_group"))),
        ("1group", PrefixError::Ident(Context::Group, unicode("1group"))),
        ("1group::id", PrefixError::Ident(Context::Group, unicode("1group"))),
        ("1group::_id", PrefixError::Ident(Context::Group, unicode("1group"))),
        ("group::_id", PrefixError::Ident(Context::Id, underscore("_id"))),
        ("group::1id", PrefixError::Ident(Context::Id, unicode("1id"))),
    ];
    for (input, expected) in cases {
        assert_eq!(Prefix::from_str(input), Err(expected), "{input}");
    }
}

#[test]
fn prefix_error_from_parts() {
    let cases = [
        ("", None, PrefixError::Empty),
        ("", Some(""), PrefixError::Empty),
        ("", Some("id"), PrefixError::Empty),
        ("_group", None, PrefixError::Ident(Context::Group, underscore("_group"))),
        ("_group", Some("id"), PrefixError::Ident(Context::Group, underscore("_group"))),
        ("group", Some("_id"), PrefixError::Ident(Context::Id, underscore("_id"))),
        ("1group", None, PrefixError::Ident(Context::Group, unicode("1group"))),
        ("1group", Some("id"), PrefixError::Ident(Context::Group, unicode("1group"))),
        ("1group", Some("_id"), PrefixError::Ident(Context::Group, unicode("1group"))),
        ("group", Some("1id"), PrefixError::Ident(Context::Id, unicode("1id"))),
    ];
    for (group, id, expected) in cases {
        assert_eq!(Prefix::from_parts_raw(group, id), Err(expected), "{group} {id:?}");
    }
}

#[test]
fn text_round_trip() {
    for input in ["group::id", "ß::łąka", "a1::b_2"] {
        let report_id = ReportId::from_str(input).unwrap();
        assert_eq!(ReportId::from_str(&report_id.to_string()), Ok(report_id));
    }
    for input in ["group", "group::i", "ß::ł"] {
        let prefix = Prefix::from_str(input).unwrap();
        assert_eq!(Prefix::from_str(&prefix.to_string()), Ok(prefix));
    }
    let ident = Ident::from_str("r#type").unwrap();
    assert_eq!(Ident::from_str(ident.as_str()), Ok(ident));
}

#[test]
fn severity_names_and_levels() {
    let all = [
        (Severity::Suppress, "suppress", None),
        (Severity::Error, "error", Some(cargo_scholium::ident::LogLevel::Error)),
        (Severity::Warning, "warning", Some(cargo_scholium::ident::LogLevel::Warn)),
        (Severity::Info, "info", Some(cargo_scholium::ident::LogLevel::Info)),
        (Severity::Debug, "debug", Some(cargo_scholium::ident::LogLevel::Debug)),
        (Severity::Trace, "trace", Some(cargo_scholium::ident::LogLevel::Trace)),
    ];
    for (severity, name, level) in all {
        assert_eq!(severity.to_string(), name);
        assert_eq!(severity.level(), level);
    }
    assert_eq!(
        Severity::from_mark(cargo_scholium::arguments::Severity::Warning),
        Severity::Warning
    );
}

#[test]
fn report_id_error_messages() {
    let e = ReportIdError::Empty(Context::Id);
    assert_eq!(e.to_string(), "report id must be in form `group::id`. Missing `id` part");
    let p = PrefixError::Ident(Context::Group, unicode("1g"));
    assert!(p.to_string().contains("1g"));
}

#[test]
fn group_prefix_matches_whole_groups() {
    let rid = ReportId::from_str("group::id").unwrap();
    assert!(!rid.starts_with(&Prefix::from_str("gr").unwrap()));
    assert!(rid.starts_with(&Prefix::from_str("group").unwrap()));
    assert!(!ReportId::from_str("gr::id").unwrap().starts_with(&Prefix::from_str("group").unwrap()));
}

#[test]
fn empty_id_prefix_is_the_group() {
    assert_eq!(Prefix::from_str("group::"), Prefix::from_str("group"));
    assert_eq!(Prefix::from_str("group").unwrap().id(), None);
}

use cargo_scholium::cli::{Output, SeverityOverrides};
use cargo_scholium::config::{
    add_group, group_of_file, obtain_profile, Configuration, Profile, ProjectConfig, ReportConfig,
    ReportDefinition,
};
use cargo_scholium::definitions::{
    cmd_setup_tracing, obtain_report_definitions, resolve_cli_severity,
    resolve_profile_information, update_severity, DuplicatePrefix,
};
use cargo_scholium::ident::{Ident, Prefix, ReportId, Severity};
use cargo_scholium::reports::report_severity;
use cargo_scholium::setup::{setup_tracing, FieldDetail, FormatKind, OutputTarget};

fn prefix(s: &str) -> Prefix {
    Prefix::from_str(s).unwrap()
}

fn rid(s: &str) -> ReportId {
    ReportId::from_str(s).unwrap()
}

fn definition(severity: Severity, name: &str) -> ReportDefinition {
    ReportDefinition {
        severity,
        display_name: name.to_owned(),
        short_message: format!("{name} short"),
        long_message: None,
        documentation: format!("{name} docs"),
    }
}

fn no_overrides() -> SeverityOverrides {
    SeverityOverrides {
        suppress: vec![],
        error: vec![],
        warning: vec![],
        info: vec![],
        debug: vec![],
        trace: vec![],
        unknown: None,
    }
}

#[test]
fn most_specific_prefix_wins() {
    let overrides = vec![
        (prefix("group::ab"), Severity::Error),
        (prefix("group"), Severity::Info),
        (prefix("group::a"), Severity::Debug),
    ];
    let mut d = definition(Severity::Warning, "x");
    assert!(!update_severity(&rid("group::abc"), &mut d, &overrides));
    assert_eq!(d.severity, Severity::Error);

    let mut d = definition(Severity::Warning, "x");
    assert!(!update_severity(&rid("group::axe"), &mut d, &overrides));
    assert_eq!(d.severity, Severity::Debug);

    let mut d = definition(Severity::Warning, "x");
    assert!(!update_severity(&rid("group::zzz"), &mut d, &overrides));
    assert_eq!(d.severity, Severity::Info);

    let mut d = definition(Severity::Warning, "x");
    assert!(!update_severity(&rid("other::ab"), &mut d, &overrides));
    assert_eq!(d.severity, Severity::Warning);
}

#[test]
fn suppression_is_reported_only_when_new() {
    let overrides = vec![(prefix("g"), Severity::Suppress)];
    let mut d = definition(Severity::Info, "x");
    assert!(update_severity(&rid("g::x"), &mut d, &overrides));
    assert_eq!(d.severity, Severity::Suppress);
    let mut d = definition(Severity::Suppress, "x");
    assert!(!update_severity(&rid("g::x"), &mut d, &overrides));
    assert_eq!(d.severity, Severity::Suppress);
}

#[test]
fn cli_overrides_in_order() {
    let mut o = no_overrides();
    o.suppress = vec![prefix("a")];
    o.trace = vec![prefix("b::c")];
    o.error = vec![prefix("d")];
    o.unknown = Some(Severity::Debug);
    let (pairs, unknown) = resolve_cli_severity(o).unwrap();
    let pairs: Vec<(String, Severity)> = pairs.iter().map(|(p, s)| (p.to_string(), *s)).collect();
    assert_eq!(
        pairs,
        vec![
            ("a".to_owned(), Severity::Suppress),
            ("d".to_owned(), Severity::Error),
            ("b::c".to_owned(), Severity::Trace),
        ]
    );
    assert_eq!(unknown, Some(Severity::Debug));
}

#[test]
fn cli_duplicate_prefix_is_an_error() {
    let mut o = no_overrides();
    o.warning = vec![prefix("x::y"), prefix("z")];
    o.info = vec![prefix("x::y")];
    let error = resolve_cli_severity(o).unwrap_err();
    assert_eq!(error, DuplicatePrefix(prefix("x::y")));
    assert_eq!(error.message(), "duplicate prefix is defined in CLI parameters: x::y");
}

fn configuration() -> Configuration {
    let mut config = Configuration::new();
    add_group(
        &mut config,
        Ident::from_str("lint").unwrap(),
        ReportConfig {
            display_name: "Lints".to_owned(),
            reports: vec![
                (Ident::from_str("alpha").unwrap(), definition(Severity::Warning, "Alpha")),
                (Ident::from_str("beta").unwrap(), definition(Severity::Info, "Beta")),
            ],
        },
    );
    add_group(
        &mut config,
        Ident::from_str("doc").unwrap(),
        ReportConfig {
            display_name: "Docs".to_owned(),
            reports: vec![(Ident::from_str("gamma").unwrap(), definition(Severity::Suppress, "Gamma"))],
        },
    );
    config
}

#[test]
fn configuration_is_ordered_and_read_back() {
    let config = configuration();
    let ids: Vec<String> = config.report_definitions().iter().map(|(k, _)| k.to_string()).collect();
    assert_eq!(ids, vec!["doc::gamma", "lint::alpha", "lint::beta"]);
    let groups: Vec<String> = config.group_display_names().iter().map(|(k, n)| format!("{}={n}", k.as_str())).collect();
    assert_eq!(groups, vec!["doc=Docs", "lint=Lints"]);
    assert_eq!(config.definition_of(&rid("lint::beta")).unwrap().display_name, "Beta");
    assert!(config.definition_of(&rid("lint::delta")).is_none());
    assert_eq!(config.group_display_name(&Ident::from_str("doc").unwrap()).unwrap(), "Docs");
}

#[test]
fn configuration_replaces_on_second_write() {
    let mut config = configuration();
    config.insert_definition(rid("lint::alpha"), definition(Severity::Error, "Alpha2"));
    assert_eq!(config.definition_of(&rid("lint::alpha")).unwrap().display_name, "Alpha2");
    assert_eq!(config.report_definitions().len(), 3);
}

#[test]
fn group_files() {
    assert_eq!(group_of_file("lint.toml").map(|g| g.as_str().to_owned()), Some("lint".to_owned()));
    assert_eq!(group_of_file("a.b.toml"), None);
    assert_eq!(group_of_file("lint.json"), None);
    assert_eq!(group_of_file(".toml"), None);
    assert_eq!(group_of_file("_x.toml"), None);
    assert_eq!(group_of_file("lint"), None);
}

#[test]
fn report_definitions_split_by_overrides() {
    let config = configuration();
    let profile_overrides = vec![(prefix("lint"), Severity::Suppress), (prefix("doc"), Severity::Error)];
    let mut cli = no_overrides();
    cli.trace = vec![prefix("lint::b")];
    let reports = obtain_report_definitions(profile_overrides, cli, &config).unwrap();
    let kept: Vec<(String, Severity)> =
        reports.definitions.iter().map(|(k, d)| (k.to_string(), d.severity)).collect();
    assert_eq!(
        kept,
        vec![("doc::gamma".to_owned(), Severity::Error), ("lint::beta".to_owned(), Severity::Trace)]
    );
    let suppressed: Vec<String> = reports.suppressed.iter().map(|k| k.to_string()).collect();
    assert_eq!(suppressed, vec!["lint::alpha"]);
    assert_eq!(reports.unknown, None);
}

#[test]
fn command_line_wins_over_profile() {
    let config = configuration();
    let profile_overrides = vec![(prefix("lint::alpha"), Severity::Suppress)];
    let mut cli = no_overrides();
    cli.error = vec![prefix("lint::alpha")];
    let reports = obtain_report_definitions(profile_overrides, cli, &config).unwrap();
    assert!(reports.suppressed.is_empty());
    let alpha = reports.definitions.iter().find(|(k, _)| k.to_string() == "lint::alpha").unwrap();
    assert_eq!(alpha.1.severity, Severity::Error);
}

#[test]
fn profile_information() {
    let config = configuration();
    let profile = Profile {
        format: Some(FormatKind::Json),
        detail: Some(FieldDetail::Compact),
        unknown: Some(Severity::Info),
        output: Some("out.log".to_owned()),
        overrides: vec![],
    };
    let output = Output { output: None, format: None, detail: Some(FieldDetail::Full) };
    let mut cli = no_overrides();
    cli.unknown = Some(Severity::Warning);
    let (resolved, setup) = resolve_profile_information(profile.clone(), &config, output, cli).unwrap();
    assert_eq!(resolved.unknown, Some(Severity::Warning));
    assert_eq!(resolved.definitions.len(), 3);
    assert_eq!(setup.format, FormatKind::Json);
    assert_eq!(setup.detail, FieldDetail::Full);
    assert_eq!(setup.target, OutputTarget::File("out.log".to_owned()));

    let output = Output { output: None, format: None, detail: None };
    let (resolved, _) = resolve_profile_information(profile, &config, output, no_overrides()).unwrap();
    assert_eq!(resolved.unknown, Some(Severity::Info));
}

#[test]
fn profile_information_with_duplicate() {
    let mut cli = no_overrides();
    cli.debug = vec![prefix("a"), prefix("a")];
    let output = Output { output: None, format: None, detail: None };
    let r = resolve_profile_information(Profile::default(), &configuration(), output, cli);
    assert_eq!(r.unwrap_err(), DuplicatePrefix(prefix("a")));
}

#[test]
fn output_settings_defaults_and_precedence() {
    let s = setup_tracing(None, None, None, None, None, None);
    assert_eq!((s.format, s.detail, s.target), (FormatKind::Human, FieldDetail::Full, OutputTarget::Stdout));
    let s = setup_tracing(
        Some(FormatKind::Json),
        None,
        Some("cli".to_owned()),
        Some(FormatKind::Human),
        Some(FieldDetail::Compact),
        Some("profile".to_owned()),
    );
    assert_eq!(s.format, FormatKind::Json);
    assert_eq!(s.detail, FieldDetail::Compact);
    assert_eq!(s.target, OutputTarget::File("cli".to_owned()));
}

#[test]
fn list_and_explain_setup() {
    let mut profile = Profile::default();
    profile.detail = Some(FieldDetail::Compact);
    let (setup, detail) = cmd_setup_tracing(&profile, None);
    assert_eq!(detail, FieldDetail::Compact);
    assert_eq!(setup.target, OutputTarget::Stdout);
    assert_eq!(setup.format, FormatKind::Human);
    let (_, detail) = cmd_setup_tracing(&profile, Some(FieldDetail::Full));
    assert_eq!(detail, FieldDetail::Full);
    let (_, detail) = cmd_setup_tracing(&Profile::default(), None);
    assert_eq!(detail, FieldDetail::Full);
}

#[test]
fn profile_selection() {
    let mut strict = Profile::default();
    strict.unknown = Some(Severity::Error);
    let config = ProjectConfig { profiles: Some(vec![("strict".to_owned(), strict.clone())]) };
    assert_eq!(obtain_profile(config.clone(), Some("strict")), strict);
    assert_eq!(obtain_profile(config.clone(), Some("lenient")), Profile::default());
    assert_eq!(obtain_profile(config, None), Profile::default());
    assert_eq!(obtain_profile(ProjectConfig::default(), Some("strict")), Profile::default());
}

#[test]
fn severity_to_report() {
    assert_eq!(report_severity(false, Some(Severity::Warning), Severity::Suppress), Severity::Warning);
    assert_eq!(report_severity(true, Some(Severity::Warning), Severity::Info), Severity::Suppress);
    assert_eq!(report_severity(false, None, Severity::Info), Severity::Info);
}

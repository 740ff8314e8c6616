use cargo_scholium::config::{add_group, Configuration, ReportConfig, ReportDefinition};
use cargo_scholium::ident::{Ident, ReportId, Severity};
use cargo_scholium::listing::{explain_text, list_lines};
use cargo_scholium::packages::{
    collect_root_folders, is_lib_or_bin, resolve_package_roots, roots_from_parents,
    unknown_packages, unknown_packages_message, PackageInfo, RootFolder, TargetInfo, TargetKind,
};
use cargo_scholium::setup::FieldDetail;

fn definition(name: &str, severity: Severity) -> ReportDefinition {
    ReportDefinition {
        severity,
        display_name: name.to_owned(),
        short_message: format!("{name}: short"),
        long_message: None,
        documentation: format!("{name}: docs"),
    }
}

fn configuration() -> Configuration {
    let mut config = Configuration::new();
    add_group(
        &mut config,
        Ident::from_str("lint").unwrap(),
        ReportConfig {
            display_name: "Lints".to_owned(),
            reports: vec![
                (Ident::from_str("beta").unwrap(), definition("Beta", Severity::Info)),
                (Ident::from_str("alpha").unwrap(), definition("Alpha", Severity::Warning)),
            ],
        },
    );
    add_group(
        &mut config,
        Ident::from_str("doc").unwrap(),
        ReportConfig {
            display_name: "Docs".to_owned(),
            reports: vec![(Ident::from_str("gamma").unwrap(), definition("Gamma", Severity::Error))],
        },
    );
    config.insert_definition(ReportId::from_str("misc::delta").unwrap(), definition("Delta", Severity::Debug));
    config
}

#[test]
fn compact_list() {
    let lines = list_lines(&configuration(), FieldDetail::Compact);
    assert_eq!(lines, vec!["doc::gamma", "lint::alpha", "lint::beta", "misc::delta"]);
}

#[test]
fn full_list() {
    let lines = list_lines(&configuration(), FieldDetail::Full);
    assert_eq!(
        lines,
        vec![
            "doc: Docs",
            "doc::gamma: Gamma",
            "",
            "lint: Lints",
            "lint::alpha: Alpha",
            "lint::beta: Beta",
            "misc::delta: Delta",
        ]
    );
}

#[test]
fn explanation() {
    let config = configuration();
    let text = explain_text(&config, &ReportId::from_str("lint::alpha").unwrap()).unwrap();
    assert_eq!(text, "Alpha: short\nDefault severity: warning\n\nAlpha: docs");
    assert_eq!(explain_text(&config, &ReportId::from_str("lint::zeta").unwrap()), None);
}

fn target(kinds: Vec<TargetKind>, src: &str) -> TargetInfo {
    TargetInfo { kind: kinds, src_path: src.to_owned() }
}

fn package(name: &str, targets: Vec<TargetInfo>) -> PackageInfo {
    PackageInfo { name: name.to_owned(), targets }
}

#[test]
fn library_and_binary_targets() {
    assert!(is_lib_or_bin(&target(vec![TargetKind::Lib], "/w/a/src/lib.rs")));
    assert!(is_lib_or_bin(&target(vec![TargetKind::Other, TargetKind::Bin], "/w/a/src/main.rs")));
    assert!(!is_lib_or_bin(&target(vec![TargetKind::Other], "/w/a/tests/t.rs")));
    assert!(!is_lib_or_bin(&target(vec![], "/w/a/x.rs")));
}

#[test]
fn root_folders_of_a_package() {
    let p = package(
        "a",
        vec![
            target(vec![TargetKind::Bin], "/w/a/src/bin/tool.rs"),
            target(vec![TargetKind::Lib], "/w/a/src/lib.rs"),
            target(vec![TargetKind::Bin], "/w/a/src/main.rs"),
            target(vec![TargetKind::Other], "/w/a/tests/it.rs"),
        ],
    );
    let roots: Vec<String> = collect_root_folders(&p).into_iter().map(|r| r.path).collect();
    assert_eq!(roots, vec!["/w/a/src", "/w/a/src/bin"]);
}

fn folder(path: &str) -> Option<RootFolder> {
    let mut components = vec!["/".to_owned()];
    components.extend(path.split('/').filter(|c| !c.is_empty()).map(|c| c.to_owned()));
    Some(RootFolder { path: path.to_owned(), components })
}

#[test]
fn root_folders_from_drawn_parents() {
    let p = package(
        "a",
        vec![
            target(vec![TargetKind::Bin], "/w/a/src/bin/tool.rs"),
            target(vec![TargetKind::Lib], "/w/a/src/lib.rs"),
            target(vec![TargetKind::Bin], "/w/a/src/main.rs"),
            target(vec![TargetKind::Other], "/w/a/tests/it.rs"),
        ],
    );
    let parents = vec![folder("/w/a/src/bin"), folder("/w/a/src"), folder("/w/a/src"), folder("/w/a/tests")];
    let roots: Vec<String> = roots_from_parents(&p, parents).into_iter().map(|r| r.path).collect();
    assert_eq!(roots, vec!["/w/a/src", "/w/a/src/bin"]);
    let parents = vec![None, folder("/w/a/src"), None, folder("/w/a/tests")];
    let roots: Vec<String> = roots_from_parents(&p, parents).into_iter().map(|r| r.path).collect();
    assert_eq!(roots, vec!["/w/a/src"]);
    let roots = roots_from_parents(&p, vec![]);
    assert!(roots.is_empty());
}

#[test]
fn unknown_package_names() {
    let packages = vec![package("a", vec![]), package("b", vec![])];
    let requested = vec!["c".to_owned(), "a".to_owned(), "d".to_owned(), "c".to_owned()];
    assert_eq!(unknown_packages(&packages, &requested), vec!["c", "d"]);
    assert_eq!(resolve_package_roots(&packages, &requested).unwrap_err(), vec!["c", "d"]);
}

#[test]
fn package_roots_of_the_workspace() {
    let packages = vec![
        package("a", vec![target(vec![TargetKind::Lib], "/w/a/src/lib.rs")]),
        package("b", vec![target(vec![TargetKind::Lib], "/w/b/src/lib.rs")]),
        package("c", vec![target(vec![TargetKind::Lib], "/w/a/src/lib.rs")]),
    ];
    let all: Vec<String> =
        resolve_package_roots(&packages, &vec![]).unwrap().into_iter().map(|r| r.path).collect();
    assert_eq!(all, vec!["/w/a/src", "/w/b/src"]);
    let some: Vec<String> = resolve_package_roots(&packages, &vec!["b".to_owned()])
        .unwrap()
        .into_iter()
        .map(|r| r.path)
        .collect();
    assert_eq!(some, vec!["/w/b/src"]);
}

#[test]
fn unknown_packages_messages() {
    assert_eq!(unknown_packages_message(&vec![]), "some packages are unknown");
    assert_eq!(unknown_packages_message(&vec!["a".to_owned()]), "package `a` is unknown");
    assert_eq!(
        unknown_packages_message(&vec!["a".to_owned(), "b".to_owned()]),
        "unknown packages: `a`, and `b`"
    );
    assert_eq!(
        unknown_packages_message(&vec!["a".to_owned(), "b".to_owned(), "c".to_owned()]),
        "unknown packages: `a`, `b`, and `c`"
    );
}

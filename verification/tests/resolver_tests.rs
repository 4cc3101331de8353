use modfetch::model::{FetchError, FileEntry, Target, VersionRecord};
use modfetch::resolver::{contains_string, is_compatible, resolve_project, ProjectResolution, VersionFetch};

fn s(x: &str) -> String {
    String::from(x)
}

fn target(platform_version: &str, loader: &str) -> Target {
    Target { platform_version: s(platform_version), loader: s(loader) }
}

fn version(game_versions: &[&str], loaders: &[&str], files: &[(&str, &str)]) -> VersionRecord {
    VersionRecord {
        game_versions: game_versions.iter().map(|v| s(v)).collect(),
        loaders: loaders.iter().map(|v| s(v)).collect(),
        files: files
            .iter()
            .map(|(url, filename)| FileEntry { url: s(url), filename: s(filename) })
            .collect(),
    }
}

#[test]
fn contains_string_finds_exact_match() {
    let hay = vec![s("1.19.4"), s("1.20.1")];
    assert!(contains_string(&hay, &s("1.20.1")));
    assert!(!contains_string(&hay, &s("1.20")));
}

#[test]
fn contains_string_empty_list() {
    let hay: Vec<String> = Vec::new();
    assert!(!contains_string(&hay, &s("anything")));
}

#[test]
fn compatibility_needs_both_platform_and_loader() {
    let t = target("1.20.1", "fabric");
    let both = version(&["1.20.1"], &["fabric"], &[]);
    let platform_only = version(&["1.20.1"], &["forge"], &[]);
    let loader_only = version(&["1.19.2"], &["fabric"], &[]);
    assert!(is_compatible(&both, &t));
    assert!(!is_compatible(&platform_only, &t));
    assert!(!is_compatible(&loader_only, &t));
}

#[test]
fn loader_comparison_is_exact_on_the_registry_side() {
    // The target loader arrives lower-cased; a mixed-case registry string
    // is not a match.
    let t = target("1.20.1", "fabric");
    let mixed = version(&["1.20.1"], &["Fabric"], &[]);
    assert!(!is_compatible(&mixed, &t));
}

#[test]
fn no_compatible_version_selects_nothing() {
    let t = target("1.20.1", "fabric");
    let fetches = vec![
        VersionFetch::Fetched(version(&["1.19.2"], &["fabric"], &[("http://x/a.jar", "a.jar")])),
        VersionFetch::Fetched(version(&["1.20.1"], &["forge"], &[("http://x/b.jar", "b.jar")])),
    ];
    match resolve_project(&fetches, &t) {
        ProjectResolution::NoCompatibleVersion => {},
        _ => panic!("expected no compatible version"),
    }
}

#[test]
fn first_compatible_version_wins() {
    let t = target("1.20.1", "fabric");
    let fetches = vec![
        VersionFetch::Fetched(version(&["1.19.2"], &["fabric"], &[("http://x/old.jar", "old.jar")])),
        VersionFetch::Fetched(version(&["1.20.1"], &["fabric"], &[("http://x/first.jar", "first.jar")])),
        VersionFetch::Fetched(version(&["1.20.1"], &["fabric"], &[("http://x/later.jar", "later.jar")])),
    ];
    match resolve_project(&fetches, &t) {
        ProjectResolution::Selected { version_index, file } => {
            assert_eq!(version_index, 1);
            assert_eq!(file.url, s("http://x/first.jar"));
            assert_eq!(file.filename, s("first.jar"));
        },
        _ => panic!("expected a selection"),
    }
}

#[test]
fn selected_file_is_the_first_file() {
    let t = target("1.20.1", "fabric");
    let fetches = vec![VersionFetch::Fetched(version(
        &["1.20.1"],
        &["fabric"],
        &[("http://x/main.jar", "main.jar"), ("http://x/sources.jar", "sources.jar")],
    ))];
    match resolve_project(&fetches, &t) {
        ProjectResolution::Selected { version_index, file } => {
            assert_eq!(version_index, 0);
            assert_eq!(file.filename, s("main.jar"));
        },
        _ => panic!("expected a selection"),
    }
}

#[test]
fn empty_file_list_reports_no_file_available() {
    let t = target("1.20.1", "fabric");
    let fetches = vec![VersionFetch::Fetched(version(&["1.20.1"], &["fabric"], &[]))];
    match resolve_project(&fetches, &t) {
        ProjectResolution::NoFileAvailable { version_index } => assert_eq!(version_index, 0),
        _ => panic!("expected NoFileAvailable"),
    }
}

#[test]
fn metadata_failure_stops_the_scan() {
    let t = target("1.20.1", "fabric");
    let fetches = vec![
        VersionFetch::Fetched(version(&["1.19.2"], &["fabric"], &[])),
        VersionFetch::FetchFailed(FetchError::Network),
        VersionFetch::Fetched(version(&["1.20.1"], &["fabric"], &[("http://x/a.jar", "a.jar")])),
    ];
    match resolve_project(&fetches, &t) {
        ProjectResolution::MetadataFailed { version_index, error } => {
            assert_eq!(version_index, 1);
            assert_eq!(error, FetchError::Network);
        },
        _ => panic!("expected MetadataFailed"),
    }
}

#[test]
fn decode_failure_is_reported_as_such() {
    let t = target("1.20.1", "fabric");
    let fetches = vec![VersionFetch::FetchFailed(FetchError::Decode)];
    match resolve_project(&fetches, &t) {
        ProjectResolution::MetadataFailed { version_index, error } => {
            assert_eq!(version_index, 0);
            assert_eq!(error, FetchError::Decode);
        },
        _ => panic!("expected MetadataFailed"),
    }
}

#[test]
fn compatible_version_before_failure_still_wins() {
    let t = target("1.20.1", "fabric");
    let fetches = vec![
        VersionFetch::Fetched(version(&["1.20.1"], &["fabric"], &[("http://x/a.jar", "a.jar")])),
        VersionFetch::FetchFailed(FetchError::Network),
    ];
    match resolve_project(&fetches, &t) {
        ProjectResolution::Selected { version_index, .. } => assert_eq!(version_index, 0),
        _ => panic!("expected a selection"),
    }
}

#[test]
fn empty_version_list_has_no_compatible_version() {
    let t = target("1.20.1", "fabric");
    let fetches: Vec<VersionFetch> = Vec::new();
    match resolve_project(&fetches, &t) {
        ProjectResolution::NoCompatibleVersion => {},
        _ => panic!("expected no compatible version"),
    }
}

use modfetch::model::{FetchError, FileEntry};
use modfetch::pipeline::plan_downloads;
use modfetch::registry::{collection_url, destination_path, project_url, version_url};
use modfetch::resolver::ProjectResolution;

fn s(x: &str) -> String {
    String::from(x)
}

fn selected(url: &str, filename: &str) -> ProjectResolution {
    ProjectResolution::Selected {
        version_index: 0,
        file: FileEntry { url: s(url), filename: s(filename) },
    }
}

#[test]
fn endpoint_urls_are_templated_with_the_identifier() {
    assert_eq!(
        collection_url(&s("3GZrvdRN")),
        s("https://api.modrinth.com/v3/collection/3GZrvdRN")
    );
    assert_eq!(project_url(&s("p1")), s("https://api.modrinth.com/v3/project/p1"));
    assert_eq!(version_url(&s("v1")), s("https://api.modrinth.com/v3/version/v1"));
}

#[test]
fn destination_nests_the_filename_in_the_mods_directory() {
    assert_eq!(destination_path(&s("a.jar")), s("mods/a.jar"));
}

#[test]
fn plan_keeps_only_selected_files_in_project_order() {
    let resolutions = vec![
        selected("http://x/a.jar", "a.jar"),
        ProjectResolution::NoCompatibleVersion,
        ProjectResolution::MetadataFailed { version_index: 0, error: FetchError::Network },
        selected("http://x/b.jar", "b.jar"),
        ProjectResolution::NoFileAvailable { version_index: 2 },
    ];
    let items = plan_downloads(&resolutions);
    assert_eq!(items.len(), 2);
    assert_eq!(items[0].url, s("http://x/a.jar"));
    assert_eq!(items[0].path, s("mods/a.jar"));
    assert_eq!(items[1].url, s("http://x/b.jar"));
    assert_eq!(items[1].path, s("mods/b.jar"));
}

#[test]
fn plan_never_exceeds_one_item_per_project() {
    let resolutions = vec![
        selected("http://x/a.jar", "a.jar"),
        selected("http://x/b.jar", "b.jar"),
        ProjectResolution::NoCompatibleVersion,
    ];
    let items = plan_downloads(&resolutions);
    assert!(items.len() <= resolutions.len());
    assert_eq!(items.len(), 2);
}

#[test]
fn plan_of_no_selections_is_empty() {
    let resolutions = vec![
        ProjectResolution::NoCompatibleVersion,
        ProjectResolution::NoFileAvailable { version_index: 0 },
        ProjectResolution::MetadataFailed { version_index: 1, error: FetchError::Decode },
    ];
    let items = plan_downloads(&resolutions);
    assert!(items.is_empty());
}

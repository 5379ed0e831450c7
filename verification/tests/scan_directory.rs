//! Tests that run the listing against a real directory, the way the embedding
//! boundary does: build the pattern, scan with glob, hand the scan to the
//! verified lister.
use rustlibs::csv_handler::get_csv_files_from_folder;
use rustlibs::csv_handler::prepare_scan;

fn scan_with_glob(pattern: &str) -> Option<Vec<String>> {
    match glob::glob(pattern) {
        Ok(paths) => Some(
            paths
                .filter_map(|entry| entry.ok())
                .map(|p| p.to_string_lossy().into_owned())
                .collect(),
        ),
        Err(_) => None,
    }
}

fn list_in(config: Option<String>) -> Vec<String> {
    let dir_exists = match &config {
        Some(folder) => std::path::Path::new(folder).exists(),
        None => false,
    };
    let scan = match prepare_scan(&config, dir_exists) {
        Some(pattern) => scan_with_glob(&pattern),
        None => None,
    };
    get_csv_files_from_folder(config, dir_exists, scan)
}

fn make_file(dir: &std::path::Path, name_base: &str, ext: &str) -> tempfile::NamedTempFile {
    tempfile::Builder::new()
        .prefix(name_base)
        .suffix(ext)
        .rand_bytes(0)
        .tempfile_in(dir)
        .unwrap()
}

#[test]
fn matching_files_only_descending() {
    let dir = tempfile::tempdir().unwrap();
    let base = dir.path().to_str().unwrap().to_string();
    let _f1 = make_file(dir.path(), "sheepit_team_points_20240101", ".csv");
    let _f2 = make_file(dir.path(), "sheepit_team_points_20240215", ".csv");
    let _f3 = make_file(dir.path(), "notes", ".txt");

    let r = list_in(Some(base.clone()));
    assert_eq!(
        r,
        vec![
            format!("{}/sheepit_team_points_20240215.csv", base),
            format!("{}/sheepit_team_points_20240101.csv", base),
        ]
    );
}

#[test]
fn rescan_of_unchanged_directory_is_identical() {
    let dir = tempfile::tempdir().unwrap();
    let base = dir.path().to_str().unwrap().to_string();
    let _f1 = make_file(dir.path(), "sheepit_team_points_20240101", ".csv");
    let _f2 = make_file(dir.path(), "sheepit_team_points_20231005", ".csv");

    let r1 = list_in(Some(base.clone()));
    let r2 = list_in(Some(base));
    assert_eq!(r1, r2);
    assert_eq!(r1.len(), 2);
}

#[test]
fn existing_directory_without_matches_is_empty() {
    let dir = tempfile::tempdir().unwrap();
    let base = dir.path().to_str().unwrap().to_string();
    let _f = make_file(dir.path(), "notes", ".txt");

    let r = list_in(Some(base));
    assert!(r.is_empty());
}

#[test]
fn configured_directory_that_does_not_exist_is_empty() {
    let dir = tempfile::tempdir().unwrap();
    let mut gone = dir.path().to_str().unwrap().to_string();
    drop(dir);
    gone.push_str("_gone");
    let r = list_in(Some(gone));
    assert!(r.is_empty());
}

#[test]
fn no_configuration_is_empty() {
    let r = list_in(None);
    assert!(r.is_empty());
}

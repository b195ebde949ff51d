use filter_updater::location::{pick_documents_dir, poe_dir_in, DirectoryError};
use filter_updater::naming::{first_filter_file, is_filter_file_name, stale_filter_files};
use filter_updater::version::{read_filter_version_from_string, MissingVersionLine};
use std::path::{Path, PathBuf};

fn parts_of(p: &Path) -> Vec<String> {
    p.components().map(|c| c.as_os_str().to_str().unwrap().to_owned()).collect()
}

fn names(list: &[&str]) -> Vec<String> {
    list.iter().map(|s| s.to_string()).collect()
}

#[test]
fn test_determine_documents_dir_should_return_something() {
    let documents = pick_documents_dir(
        dirs::document_dir().map(|p| parts_of(&p)),
        dirs::home_dir().map(|p| parts_of(&p)),
    );
    let path: PathBuf = documents.unwrap().iter().collect();
    assert!(path.to_string_lossy().len() > 0);
}

#[test]
fn configuration_dir_is_under_my_games() {
    let docs = parts_of(Path::new("/home/u/Documents"));
    let dir: PathBuf = poe_dir_in(&docs).iter().collect();
    assert_eq!(dir, PathBuf::from("/home/u/Documents/My Games/Path of Exile"));
}

#[test]
fn documents_dir_prefers_platform_documents() {
    let r = pick_documents_dir(Some(names(&["/", "docs"])), Some(names(&["/", "home", "u"])));
    assert_eq!(r, Ok(names(&["/", "docs"])));
}

#[test]
fn documents_dir_falls_back_to_home() {
    let r = pick_documents_dir(None, Some(names(&["/", "home", "u"])));
    assert_eq!(r, Ok(names(&["/", "home", "u", "Documents"])));
    let path: PathBuf = r.unwrap().iter().collect();
    assert_eq!(path, PathBuf::from("/home/u/Documents"));
}

#[test]
fn documents_dir_without_home_is_an_error() {
    assert_eq!(pick_documents_dir(None, None), Err(DirectoryError));
}

#[test]
fn filter_file_names_need_both_markers() {
    assert!(is_filter_file_name("NeverSink's filter - 1-REGULAR.filter"));
    assert!(is_filter_file_name("NeverSink.filter.bak"));
    assert!(!is_filter_file_name("NeverSink.txt"));
    assert!(!is_filter_file_name("custom.filter"));
    assert!(!is_filter_file_name("neversink.filter"));
    assert!(!is_filter_file_name(""));
}

#[test]
fn probe_picks_first_filter_file() {
    let listing = names(&["a.txt", "NeverSink 2.filter", "NeverSink 1.filter"]);
    assert_eq!(first_filter_file(&listing), Some(1));
}

#[test]
fn probe_without_filter_file_finds_nothing() {
    assert_eq!(first_filter_file(&names(&["a.txt", "b.filter", "NeverSink.ini"])), None);
    assert_eq!(first_filter_file(&Vec::new()), None);
}

#[test]
fn stale_files_are_all_installed_filters() {
    let listing = names(&["NeverSink 1.filter", "x.ini", "NeverSink 2-STRICT.filter", "own.filter"]);
    assert_eq!(
        stale_filter_files(&listing),
        names(&["NeverSink 1.filter", "NeverSink 2-STRICT.filter"])
    );
    assert!(stale_filter_files(&names(&["x"])).is_empty());
}

#[test]
fn version_token_is_read_from_marker_line() {
    let text = "#=====\n# NeverSink's filter\n# VERSION: 1.2.3\nShow\n";
    assert_eq!(read_filter_version_from_string(text), Ok("1.2.3".to_string()));
}

#[test]
fn version_token_ignores_extra_white_space() {
    let text = "Show\r\n#   # VERSION:    1.2.3   \r\n# VERSION: 9.9\n";
    assert_eq!(read_filter_version_from_string(text), Ok("1.2.3".to_string()));
    assert_eq!(read_filter_version_from_string("# VERSION:\t7.4.1"), Ok("7.4.1".to_string()));
    assert_eq!(read_filter_version_from_string("  \t# VERSION: 2.0\r"), Ok("2.0".to_string()));
}

#[test]
fn version_token_is_last_word_of_line() {
    let text = "# VERSION: 8.1 (beta)\n";
    assert_eq!(read_filter_version_from_string(text), Ok("(beta)".to_string()));
    assert_eq!(read_filter_version_from_string("# VERSION:"), Ok("VERSION:".to_string()));
}

#[test]
fn missing_version_line_is_an_error() {
    assert_eq!(read_filter_version_from_string("Show\nHide\n"), Err(MissingVersionLine));
    assert_eq!(read_filter_version_from_string(""), Err(MissingVersionLine));
    assert_eq!(read_filter_version_from_string("# version: 1.0"), Err(MissingVersionLine));
}

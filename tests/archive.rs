use filter_updater::archive::{extract_filters, filter_target_name, ArchiveError};
use std::io::Write;

fn zip_of(entries: &[(&str, &str)]) -> Vec<u8> {
    let mut w = zip::ZipWriter::new(std::io::Cursor::new(Vec::new()));
    for (name, body) in entries {
        w.start_file(*name, zip::write::FileOptions::default()).unwrap();
        w.write_all(body.as_bytes()).unwrap();
    }
    w.finish().unwrap().into_inner()
}

#[test]
fn member_one_level_down_is_installed_by_basename() {
    assert_eq!(
        filter_target_name("NeverSinkDev-abc123/NeverSink 1-REGULAR.filter"),
        Some("NeverSink 1-REGULAR.filter".to_string())
    );
    assert_eq!(filter_target_name("d/x.y.filter"), Some("x.y.filter".to_string()));
}

#[test]
fn member_at_top_level_is_skipped() {
    assert_eq!(filter_target_name("name.filter"), None);
    assert_eq!(filter_target_name("/name.filter"), None);
}

#[test]
fn member_two_levels_down_is_skipped() {
    assert_eq!(filter_target_name("root/sub/name.filter"), None);
    assert_eq!(filter_target_name("a/b/c/name.filter"), None);
}

#[test]
fn member_with_other_extension_is_skipped() {
    assert_eq!(filter_target_name("root/name.txt"), None);
    assert_eq!(filter_target_name("root/name.filters"), None);
    assert_eq!(filter_target_name("root/name.Filter"), None);
    assert_eq!(filter_target_name("root/.filter"), None);
    assert_eq!(filter_target_name("root/"), None);
}

#[test]
fn archive_yields_eligible_members_in_order() {
    let bytes = zip_of(&[
        ("top/README.md", "readme"),
        ("top/A.filter", "# VERSION: 3.1\nShow"),
        ("top/sub/B.filter", "nested"),
        ("C.filter", "top level"),
        ("top/D.filter", "second"),
    ]);
    let files = extract_filters(bytes).unwrap();
    let got: Vec<(String, Vec<u8>)> = files.into_iter().map(|f| (f.name, f.content)).collect();
    assert_eq!(
        got,
        vec![
            ("A.filter".to_string(), b"# VERSION: 3.1\nShow".to_vec()),
            ("D.filter".to_string(), b"second".to_vec()),
        ]
    );
}

#[test]
fn archive_without_filters_yields_nothing() {
    let bytes = zip_of(&[("top/readme.txt", "x")]);
    assert!(extract_filters(bytes).unwrap().is_empty());
}

#[test]
fn bytes_that_are_no_archive_are_an_error() {
    assert_eq!(extract_filters(b"not a zip file".to_vec()).err(), Some(ArchiveError));
    assert_eq!(extract_filters(Vec::new()).err(), Some(ArchiveError));
}

#[test]
fn example_archive_yields_one_file() {
    let bytes = zip_of(&[
        ("Repo-1a2b/NeverSink's filter.filter", "# VERSION: 3.1\n"),
        ("Repo-1a2b/README.md", "r"),
        ("Repo-1a2b/(STYLE) DARK/NeverSink's filter.filter", "d"),
        ("Repo-1a2b/x.filter.bak", "b"),
    ]);
    let files = extract_filters(bytes).unwrap();
    assert_eq!(files.len(), 1);
    assert_eq!(files[0].name, "NeverSink's filter.filter");
    assert_eq!(files[0].content, b"# VERSION: 3.1\n".to_vec());
}

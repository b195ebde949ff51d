use filter_updater::release::ReleaseInfo;
use filter_updater::updater::{Action, ErrorKind, Event, Outcome, Stage, UpdateError, Updater};
use std::io::Write;

fn zip_of(entries: &[(&str, &str)]) -> Vec<u8> {
    let mut w = zip::ZipWriter::new(std::io::Cursor::new(Vec::new()));
    for (name, body) in entries {
        w.start_file(*name, zip::write::FileOptions::default()).unwrap();
        w.write_all(body.as_bytes()).unwrap();
    }
    w.finish().unwrap().into_inner()
}

fn release(tag: &str) -> ReleaseInfo {
    ReleaseInfo {
        tag_name: tag.to_string(),
        published_at: "2024-03-01T12:00:00Z".to_string(),
        zipball_url: "https://example.invalid/zipball".to_string(),
    }
}

/// A configuration directory and a release service held in memory.
struct World {
    files: Vec<(String, String)>,
    release: Result<ReleaseInfo, ErrorKind>,
    archive: Option<Vec<u8>>,
    removals: usize,
    writes: usize,
    fetched_urls: Vec<String>,
}

impl World {
    fn new(files: &[(&str, &str)], release: Result<ReleaseInfo, ErrorKind>, archive: Option<Vec<u8>>) -> World {
        World {
            files: files.iter().map(|(n, c)| (n.to_string(), c.to_string())).collect(),
            release,
            archive,
            removals: 0,
            writes: 0,
            fetched_urls: Vec::new(),
        }
    }

    fn names(&self) -> Vec<String> {
        self.files.iter().map(|(n, _)| n.clone()).collect()
    }

    /// Runs one update to its end and returns how it ended.
    fn run(&mut self, force: bool) -> Result<Outcome, UpdateError> {
        let mut updater = Updater::new(force);
        let mut event = Event::DirectoryReady;
        loop {
            match updater.step(event) {
                Action::ListDirectory => event = Event::Listed(self.names()),
                Action::ReadFile(name) => {
                    event = match self.files.iter().find(|(n, _)| *n == name) {
                        Some((_, c)) => Event::FileRead(c.clone()),
                        None => Event::FileUnreadable,
                    }
                }
                Action::FetchRelease => {
                    event = match &self.release {
                        Ok(r) => Event::ReleaseFetched(r.clone()),
                        Err(k) => Event::ReleaseUnavailable(*k),
                    }
                }
                Action::RemoveFiles(names) => {
                    self.removals += names.len();
                    self.files.retain(|(n, _)| !names.contains(n));
                    event = Event::Removed;
                }
                Action::FetchArchive(url) => {
                    self.fetched_urls.push(url);
                    event = match &self.archive {
                        Some(b) => Event::ArchiveFetched(b.clone()),
                        None => Event::ArchiveUnavailable,
                    }
                }
                Action::WriteFiles(files) => {
                    for f in files {
                        self.writes += 1;
                        let text = String::from_utf8(f.content).unwrap();
                        self.files.retain(|(n, _)| *n != f.name);
                        self.files.push((f.name, text));
                    }
                    event = Event::Written;
                }
                Action::Finish(o) => return Ok(o),
                Action::Fail(e) => return Err(e),
            }
        }
    }
}

fn release_archive(tag: &str) -> Vec<u8> {
    let body = format!("# NeverSink's filter\n# VERSION: {}\nShow\n", tag);
    zip_of(&[
        ("NeverSinkDev-abc/NeverSink 1-REGULAR.filter", body.as_str()),
        ("NeverSinkDev-abc/NeverSink 2-STRICT.filter", body.as_str()),
        ("NeverSinkDev-abc/docs/NeverSink x.filter", "ignored"),
        ("NeverSinkDev-abc/README.md", "readme"),
    ])
}

fn updated_names(o: Outcome) -> Vec<String> {
    match o {
        Outcome::Updated(report) => report.into_iter().map(|(n, _)| n).collect(),
        Outcome::UpToDate => panic!("expected an update"),
    }
}

#[test]
fn empty_directory_gets_full_install() {
    let mut w = World::new(&[], Ok(release("3.1")), Some(release_archive("3.1")));
    let names = updated_names(w.run(false).unwrap());
    assert_eq!(names, vec!["NeverSink 1-REGULAR.filter".to_string(), "NeverSink 2-STRICT.filter".to_string()]);
    assert_eq!(w.names(), names);
    assert_eq!(w.fetched_urls, vec!["https://example.invalid/zipball".to_string()]);
}

#[test]
fn current_version_is_left_alone() {
    let mut w = World::new(
        &[("NeverSink 1-REGULAR.filter", "# VERSION: 3.0\nShow\n")],
        Ok(release("3.0")),
        Some(release_archive("3.0")),
    );
    assert!(matches!(w.run(false), Ok(Outcome::UpToDate)));
    assert_eq!(w.removals, 0);
    assert_eq!(w.writes, 0);
    assert!(w.fetched_urls.is_empty());
}

#[test]
fn second_run_writes_nothing() {
    let mut w = World::new(&[("NeverSink old.filter", "# VERSION: 2.9\n")], Ok(release("3.1")), Some(release_archive("3.1")));
    updated_names(w.run(false).unwrap());
    assert!(!w.names().contains(&"NeverSink old.filter".to_string()));
    let (removals, writes) = (w.removals, w.writes);
    assert!(matches!(w.run(false), Ok(Outcome::UpToDate)));
    assert_eq!((w.removals, w.writes), (removals, writes));
}

#[test]
fn forced_run_replaces_current_version() {
    let mut w = World::new(
        &[("NeverSink 1-REGULAR.filter", "# VERSION: 3.0\n"), ("other.txt", "")],
        Ok(release("3.0")),
        Some(release_archive("3.0")),
    );
    let names = updated_names(w.run(true).unwrap());
    assert_eq!(names.len(), 2);
    assert_eq!(w.removals, 1);
    assert_eq!(w.writes, 2);
    assert_eq!(w.fetched_urls.len(), 1);
}

#[test]
fn failed_download_leaves_no_filter_and_rerun_recovers() {
    let mut w = World::new(&[("NeverSink 1.filter", "# VERSION: 3.0\n")], Ok(release("3.1")), None);
    assert_eq!(
        w.run(false).err(),
        Some(UpdateError { stage: Stage::FetchArchive, kind: ErrorKind::Network })
    );
    assert!(w.names().is_empty());
    w.archive = Some(release_archive("3.1"));
    assert_eq!(updated_names(w.run(false).unwrap()).len(), 2);
}

#[test]
fn unparsable_installed_filter_forces_update() {
    let mut w = World::new(&[("NeverSink 1.filter", "no version here\n")], Ok(release("3.0")), Some(release_archive("3.0")));
    assert_eq!(updated_names(w.run(false).unwrap()).len(), 2);
}

#[test]
fn release_errors_are_reported_at_their_stage() {
    let mut w = World::new(&[], Err(ErrorKind::Network), None);
    assert_eq!(w.run(false).err(), Some(UpdateError { stage: Stage::FetchLatestMetadata, kind: ErrorKind::Network }));
    let mut w = World::new(&[], Err(ErrorKind::Decode), None);
    assert_eq!(w.run(false).err(), Some(UpdateError { stage: Stage::FetchLatestMetadata, kind: ErrorKind::Decode }));
}

#[test]
fn malformed_publish_date_is_a_decode_error() {
    let mut r = release("3.0");
    r.published_at = "yesterday".to_string();
    let mut w = World::new(&[], Ok(r), Some(release_archive("3.0")));
    assert_eq!(w.run(false).err(), Some(UpdateError { stage: Stage::FetchLatestMetadata, kind: ErrorKind::Decode }));
    assert_eq!(w.removals, 0);
}

#[test]
fn bad_archive_is_an_archive_error() {
    let mut w = World::new(&[], Ok(release("3.0")), Some(b"garbage".to_vec()));
    assert_eq!(w.run(false).err(), Some(UpdateError { stage: Stage::Install, kind: ErrorKind::Archive }));
}

#[test]
fn missing_directory_is_a_directory_error() {
    let mut u = Updater::new(false);
    match u.step(Event::DirectoryUnavailable) {
        Action::Fail(e) => assert_eq!(e, UpdateError { stage: Stage::LocateDirectory, kind: ErrorKind::Directory }),
        other => panic!("unexpected {:?}", other),
    }
    assert!(u.is_done());
}

#[test]
fn write_and_remove_failures_are_io_errors() {
    let mut u = Updater::new(true);
    u.step(Event::DirectoryReady);
    u.step(Event::ListFailed);
    u.step(Event::ReleaseFetched(release("1")));
    u.step(Event::Listed(Vec::new()));
    match u.step(Event::RemoveFailed) {
        Action::Fail(e) => assert_eq!(e, UpdateError { stage: Stage::RemoveStaleFiles, kind: ErrorKind::Io }),
        other => panic!("unexpected {:?}", other),
    }
}

#[test]
fn out_of_order_event_fails() {
    let mut u = Updater::new(false);
    match u.step(Event::Written) {
        Action::Fail(e) => assert_eq!(e, UpdateError { stage: Stage::LocateDirectory, kind: ErrorKind::OutOfOrder }),
        other => panic!("unexpected {:?}", other),
    }
}

#[test]
fn update_reports_each_written_file_with_its_size() {
    let archive = zip_of(&[
        ("Repo-ab/NeverSink's filter.filter", "# VERSION: 3.1\n"),
        ("Repo-ab/README.md", "r"),
        ("Repo-ab/sub/NeverSink x.filter", "s"),
    ]);
    let mut w = World::new(&[], Ok(release("3.1")), Some(archive));
    match w.run(false) {
        Ok(Outcome::Updated(report)) => {
            assert_eq!(report, vec![("NeverSink's filter.filter".to_string(), 15)])
        }
        other => panic!("unexpected {:?}", other),
    }
    assert_eq!(
        w.files,
        vec![("NeverSink's filter.filter".to_string(), "# VERSION: 3.1\n".to_string())]
    );
}

#[test]
fn bad_archive_after_removal_writes_nothing() {
    let mut w = World::new(&[("NeverSink 1.filter", "# VERSION: 3.0\n"), ("keep.txt", "k")], Ok(release("3.1")), Some(b"PK garbage".to_vec()));
    assert_eq!(w.run(false).err(), Some(UpdateError { stage: Stage::Install, kind: ErrorKind::Archive }));
    assert_eq!(w.names(), vec!["keep.txt".to_string()]);
    assert_eq!(w.writes, 0);
}

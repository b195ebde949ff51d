//! The update procedure as a state machine.
//!
//! The caller performs each `Action` that `Updater::step` hands out (listing
//! the configuration directory, reading a file, fetching from the release
//! service, removing and writing files) and reports what came of it as the
//! next `Event`. The machine decides everything else: which file's version is
//! read, whether the installed version is current, which files are removed,
//! and which archive members are written under which names.
use vstd::prelude::*;
use crate::archive::{
    archive_readable, extract_filters, files_view, selected_members, zip_members, ExtractedFile,
};
use crate::naming::{
    filter_names, first_filter, first_filter_file, is_filter_name, names_view,
    stale_filter_files,
};
use crate::release::{is_rfc3339, parses_as_rfc3339, ReleaseInfo};
use crate::version::{read_filter_version_from_string, version_of};

verus! {

/// The stage at which an update failed.
#[derive(Debug, Clone, Copy, PartialEq, Eq, Structural)]
pub enum Stage {
    LocateDirectory,
    ProbeCurrentVersion,
    FetchLatestMetadata,
    RemoveStaleFiles,
    FetchArchive,
    Install,
}

/// What went wrong.
#[derive(Debug, Clone, Copy, PartialEq, Eq, Structural)]
pub enum ErrorKind {
    /// No home directory could be found.
    Directory,
    /// The release service or the archive could not be reached.
    Network,
    /// The release description lacks a field or is malformed.
    Decode,
    /// The downloaded bytes are not a readable archive.
    Archive,
    /// Listing, removing or writing local files failed.
    Io,
    /// An event came that does not answer the action last handed out.
    OutOfOrder,
}

/// A failed update: the kind of failure and the stage it happened at.
#[derive(Debug, Clone, Copy, PartialEq, Eq, Structural)]
pub struct UpdateError {
    pub stage: Stage,
    pub kind: ErrorKind,
}

/// How a successful update ended.
#[derive(Debug)]
pub enum Outcome {
    /// The installed version is the latest one; nothing was touched.
    UpToDate,
    /// The listed files were written, each with the number of bytes written.
    Updated(Vec<(String, usize)>),
}

/// Where the procedure stands.
#[derive(Debug)]
pub enum Phase {
    /// Waiting for the configuration directory to be located.
    Locating,
    /// Waiting for the listing that the installed version is probed from.
    Listing,
    /// Waiting for the text of the installed filter file.
    Reading,
    /// Waiting for the latest release; holds the installed version, `None`
    /// when it is unknown.
    Fetching(Option<String>),
    /// Waiting for the listing that stale files are removed from.
    ListingStale(ReleaseInfo),
    /// Waiting for the stale files to be removed.
    Removing(ReleaseInfo),
    /// Waiting for the release archive.
    Downloading,
    /// Waiting for the new files, listed here with their sizes, to be written.
    Writing(Vec<(String, usize)>),
    Finished(Outcome),
    Failed(UpdateError),
}

/// What the caller reports back.
#[derive(Debug)]
pub enum Event {
    DirectoryReady,
    DirectoryUnavailable,
    /// The file names of the configuration directory, in listing order.
    Listed(Vec<String>),
    ListFailed,
    /// The text of the file that was to be read.
    FileRead(String),
    FileUnreadable,
    ReleaseFetched(ReleaseInfo),
    /// The release could not be had; `Network` or `Decode`.
    ReleaseUnavailable(ErrorKind),
    Removed,
    RemoveFailed,
    ArchiveFetched(Vec<u8>),
    ArchiveUnavailable,
    Written,
    WriteFailed,
}

/// What the caller is asked to do next.
#[derive(Debug)]
pub enum Action {
    /// List the file names of the configuration directory.
    ListDirectory,
    /// Read the named file of the configuration directory as text.
    ReadFile(String),
    /// Fetch the description of the latest release.
    FetchRelease,
    /// Remove the named files of the configuration directory.
    RemoveFiles(Vec<String>),
    /// Download the archive at this address.
    FetchArchive(String),
    /// Create or overwrite these files in the configuration directory, in
    /// order, stopping at the first failure.
    WriteFiles(Vec<ExtractedFile>),
    Finish(Outcome),
    Fail(UpdateError),
}

/// An update run: whether it replaces the installed files even when they
/// are current, and where it stands.
#[derive(Debug)]
pub struct Updater {
    pub force: bool,
    pub phase: Phase,
}

pub struct ReleaseView {
    pub tag: Seq<char>,
    pub published_at: Seq<char>,
    pub url: Seq<char>,
}

pub enum OutcomeView {
    UpToDate,
    Updated(Seq<(Seq<char>, int)>),
}

pub enum PhaseView {
    Locating,
    Listing,
    Reading,
    Fetching(Option<Seq<char>>),
    ListingStale(ReleaseView),
    Removing(ReleaseView),
    Downloading,
    Writing(Seq<(Seq<char>, int)>),
    Finished(OutcomeView),
    Failed(UpdateError),
}

pub enum EventView {
    DirectoryReady,
    DirectoryUnavailable,
    Listed(Seq<Seq<char>>),
    ListFailed,
    FileRead(Seq<char>),
    FileUnreadable,
    ReleaseFetched(ReleaseView),
    ReleaseUnavailable(ErrorKind),
    Removed,
    RemoveFailed,
    ArchiveFetched(Seq<u8>),
    ArchiveUnavailable,
    Written,
    WriteFailed,
}

pub enum ActionView {
    ListDirectory,
    ReadFile(Seq<char>),
    FetchRelease,
    RemoveFiles(Seq<Seq<char>>),
    FetchArchive(Seq<char>),
    WriteFiles(Seq<(Seq<char>, Seq<u8>)>),
    Finish(OutcomeView),
    Fail(UpdateError),
}

impl View for ReleaseInfo {
    type V = ReleaseView;

    open spec fn view(&self) -> ReleaseView {
        ReleaseView { tag: self.tag_name@, published_at: self.published_at@, url: self.zipball_url@ }
    }
}

impl View for Outcome {
    type V = OutcomeView;

    open spec fn view(&self) -> OutcomeView {
        match self {
            Outcome::UpToDate => OutcomeView::UpToDate,
            Outcome::Updated(report) => OutcomeView::Updated(report_view(report@)),
        }
    }
}

impl View for Phase {
    type V = PhaseView;

    open spec fn view(&self) -> PhaseView {
        match self {
            Phase::Locating => PhaseView::Locating,
            Phase::Listing => PhaseView::Listing,
            Phase::Reading => PhaseView::Reading,
            Phase::Fetching(current) => PhaseView::Fetching(
                match current {
                    Some(v) => Some(v@),
                    None => None,
                },
            ),
            Phase::ListingStale(r) => PhaseView::ListingStale(r@),
            Phase::Removing(r) => PhaseView::Removing(r@),
            Phase::Downloading => PhaseView::Downloading,
            Phase::Writing(report) => PhaseView::Writing(report_view(report@)),
            Phase::Finished(o) => PhaseView::Finished(o@),
            Phase::Failed(e) => PhaseView::Failed(*e),
        }
    }
}

impl View for Event {
    type V = EventView;

    open spec fn view(&self) -> EventView {
        match self {
            Event::DirectoryReady => EventView::DirectoryReady,
            Event::DirectoryUnavailable => EventView::DirectoryUnavailable,
            Event::Listed(names) => EventView::Listed(names_view(names@)),
            Event::ListFailed => EventView::ListFailed,
            Event::FileRead(text) => EventView::FileRead(text@),
            Event::FileUnreadable => EventView::FileUnreadable,
            Event::ReleaseFetched(r) => EventView::ReleaseFetched(r@),
            Event::ReleaseUnavailable(k) => EventView::ReleaseUnavailable(*k),
            Event::Removed => EventView::Removed,
            Event::RemoveFailed => EventView::RemoveFailed,
            Event::ArchiveFetched(bytes) => EventView::ArchiveFetched(bytes@),
            Event::ArchiveUnavailable => EventView::ArchiveUnavailable,
            Event::Written => EventView::Written,
            Event::WriteFailed => EventView::WriteFailed,
        }
    }
}

impl View for Action {
    type V = ActionView;

    open spec fn view(&self) -> ActionView {
        match self {
            Action::ListDirectory => ActionView::ListDirectory,
            Action::ReadFile(name) => ActionView::ReadFile(name@),
            Action::FetchRelease => ActionView::FetchRelease,
            Action::RemoveFiles(names) => ActionView::RemoveFiles(names_view(names@)),
            Action::FetchArchive(url) => ActionView::FetchArchive(url@),
            Action::WriteFiles(files) => ActionView::WriteFiles(files_view(files@)),
            Action::Finish(o) => ActionView::Finish(o@),
            Action::Fail(e) => ActionView::Fail(*e),
        }
    }
}

pub open spec fn failure(stage: Stage, kind: ErrorKind) -> (PhaseView, ActionView) {
    let e = UpdateError { stage, kind };
    (PhaseView::Failed(e), ActionView::Fail(e))
}

/// Whether the installed files are replaced: when the installed version is
/// unknown, differs from the latest tag, or the run is forced.
pub open spec fn needs_replace(force: bool, current: Option<Seq<char>>, tag: Seq<char>) -> bool {
    force || current != Some(tag)
}

/// The next phase and action after `e` arrives in phase `p`.
pub open spec fn next(force: bool, p: PhaseView, e: EventView) -> (PhaseView, ActionView) {
    match p {
        PhaseView::Locating => match e {
            EventView::DirectoryReady => (PhaseView::Listing, ActionView::ListDirectory),
            EventView::DirectoryUnavailable => failure(Stage::LocateDirectory, ErrorKind::Directory),
            _ => failure(Stage::LocateDirectory, ErrorKind::OutOfOrder),
        },
        PhaseView::Listing => match e {
            EventView::Listed(names) => match first_filter(names) {
                Some(i) => (PhaseView::Reading, ActionView::ReadFile(names[i])),
                None => (PhaseView::Fetching(None), ActionView::FetchRelease),
            },
            EventView::ListFailed => (PhaseView::Fetching(None), ActionView::FetchRelease),
            _ => failure(Stage::ProbeCurrentVersion, ErrorKind::OutOfOrder),
        },
        PhaseView::Reading => match e {
            EventView::FileRead(text) => (
                PhaseView::Fetching(version_of(text)),
                ActionView::FetchRelease,
            ),
            EventView::FileUnreadable => (PhaseView::Fetching(None), ActionView::FetchRelease),
            _ => failure(Stage::ProbeCurrentVersion, ErrorKind::OutOfOrder),
        },
        PhaseView::Fetching(current) => match e {
            EventView::ReleaseFetched(r) => if !is_rfc3339(r.published_at) {
                failure(Stage::FetchLatestMetadata, ErrorKind::Decode)
            } else if needs_replace(force, current, r.tag) {
                (PhaseView::ListingStale(r), ActionView::ListDirectory)
            } else {
                (
                    PhaseView::Finished(OutcomeView::UpToDate),
                    ActionView::Finish(OutcomeView::UpToDate),
                )
            },
            EventView::ReleaseUnavailable(k) => failure(Stage::FetchLatestMetadata, k),
            _ => failure(Stage::FetchLatestMetadata, ErrorKind::OutOfOrder),
        },
        PhaseView::ListingStale(r) => match e {
            EventView::Listed(names) => (
                PhaseView::Removing(r),
                ActionView::RemoveFiles(filter_names(names)),
            ),
            EventView::ListFailed => failure(Stage::RemoveStaleFiles, ErrorKind::Io),
            _ => failure(Stage::RemoveStaleFiles, ErrorKind::OutOfOrder),
        },
        PhaseView::Removing(r) => match e {
            EventView::Removed => (PhaseView::Downloading, ActionView::FetchArchive(r.url)),
            EventView::RemoveFailed => failure(Stage::RemoveStaleFiles, ErrorKind::Io),
            _ => failure(Stage::RemoveStaleFiles, ErrorKind::OutOfOrder),
        },
        PhaseView::Downloading => match e {
            EventView::ArchiveFetched(bytes) => if archive_readable(bytes) {
                let files = selected_members(zip_members(bytes));
                (PhaseView::Writing(report_of(files)), ActionView::WriteFiles(files))
            } else {
                failure(Stage::Install, ErrorKind::Archive)
            },
            EventView::ArchiveUnavailable => failure(Stage::FetchArchive, ErrorKind::Network),
            _ => failure(Stage::FetchArchive, ErrorKind::OutOfOrder),
        },
        PhaseView::Writing(names) => match e {
            EventView::Written => (
                PhaseView::Finished(OutcomeView::Updated(names)),
                ActionView::Finish(OutcomeView::Updated(names)),
            ),
            EventView::WriteFailed => failure(Stage::Install, ErrorKind::Io),
            _ => failure(Stage::Install, ErrorKind::OutOfOrder),
        },
        PhaseView::Finished(o) => (PhaseView::Finished(o), ActionView::Finish(o)),
        PhaseView::Failed(err) => (PhaseView::Failed(err), ActionView::Fail(err)),
    }
}

/// Each file's name with the number of bytes written for it.
pub open spec fn report_of(files: Seq<(Seq<char>, Seq<u8>)>) -> Seq<(Seq<char>, int)> {
    files.map_values(|f: (Seq<char>, Seq<u8>)| (f.0, f.1.len() as int))
}

/// A report of written files, as names and sizes.
pub open spec fn report_view(report: Seq<(String, usize)>) -> Seq<(Seq<char>, int)> {
    report.map_values(|f: (String, usize)| (f.0@, f.1 as int))
}

/// The names and sizes of the files to be written.
fn file_report(files: &Vec<ExtractedFile>) -> (r: Vec<(String, usize)>)
    ensures
        report_view(r@) == report_of(files_view(files@)),
{
    let mut r: Vec<(String, usize)> = Vec::new();
    let mut i: usize = 0;
    while i < files.len()
        invariant
            i <= files.len(),
            r@.len() == i,
            forall|k: int|
                0 <= k < i ==> r@[k].0@ == files@[k].name@ && r@[k].1 == files@[k].content@.len(),
        decreases files.len() - i,
    {
        r.push((files[i].name.clone(), files[i].content.len()));
        i = i + 1;
    }
    assert(report_view(r@) =~= report_of(files_view(files@)));
    r
}

/// A copy of a report.
fn copy_report(report: &Vec<(String, usize)>) -> (r: Vec<(String, usize)>)
    ensures
        report_view(r@) == report_view(report@),
{
    let mut r: Vec<(String, usize)> = Vec::new();
    let mut i: usize = 0;
    while i < report.len()
        invariant
            i <= report.len(),
            r@.len() == i,
            forall|k: int| 0 <= k < i ==> r@[k].0@ == report@[k].0@ && r@[k].1 == report@[k].1,
        decreases report.len() - i,
    {
        r.push((report[i].0.clone(), report[i].1));
        i = i + 1;
    }
    assert(report_view(r@) =~= report_view(report@));
    r
}

fn fail(stage: Stage, kind: ErrorKind) -> (r: (Phase, Action))
    ensures
        (r.0@, r.1@) == failure(stage, kind),
{
    let e = UpdateError { stage, kind };
    (Phase::Failed(e), Action::Fail(e))
}

impl Updater {
    /// A run that starts by locating the configuration directory; the caller
    /// does that first and reports `DirectoryReady` or `DirectoryUnavailable`.
    pub fn new(force: bool) -> (r: Updater)
        ensures
            r.force == force,
            r.phase@ == PhaseView::Locating,
    {
        Updater { force, phase: Phase::Locating }
    }

    /// Whether the run has ended, with an outcome or an error.
    pub fn is_done(&self) -> (r: bool)
        ensures
            r == (self.phase@ is Finished || self.phase@ is Failed),
    {
        match self.phase {
            Phase::Finished(_) | Phase::Failed(_) => true,
            _ => false,
        }
    }

    /// Takes in what came of the last action and hands out the next one.
    pub fn step(&mut self, event: Event) -> (a: Action)
        ensures
            final(self).force == old(self).force,
            (final(self).phase@, a@) == next(old(self).force, old(self).phase@, event@),
    {
        let mut phase = Phase::Locating;
        std::mem::swap(&mut self.phase, &mut phase);
        let force = self.force;
        let (p2, a) = match phase {
            Phase::Locating => match event {
                Event::DirectoryReady => (Phase::Listing, Action::ListDirectory),
                Event::DirectoryUnavailable => fail(Stage::LocateDirectory, ErrorKind::Directory),
                _ => fail(Stage::LocateDirectory, ErrorKind::OutOfOrder),
            },
            Phase::Listing => match event {
                Event::Listed(names) => match first_filter_file(&names) {
                    Some(i) => {
                        assert(names_view(names@)[i as int] == names@[i as int]@);
                        (Phase::Reading, Action::ReadFile(names[i].clone()))
                    },
                    None => (Phase::Fetching(None), Action::FetchRelease),
                },
                Event::ListFailed => (Phase::Fetching(None), Action::FetchRelease),
                _ => fail(Stage::ProbeCurrentVersion, ErrorKind::OutOfOrder),
            },
            Phase::Reading => match event {
                Event::FileRead(text) => {
                    let current = match read_filter_version_from_string(text.as_str()) {
                        Ok(v) => Some(v),
                        Err(_) => None,
                    };
                    (Phase::Fetching(current), Action::FetchRelease)
                },
                Event::FileUnreadable => (Phase::Fetching(None), Action::FetchRelease),
                _ => fail(Stage::ProbeCurrentVersion, ErrorKind::OutOfOrder),
            },
            Phase::Fetching(current) => match event {
                Event::ReleaseFetched(r) => {
                    if !parses_as_rfc3339(r.published_at.as_str()) {
                        fail(Stage::FetchLatestMetadata, ErrorKind::Decode)
                    } else {
                        let same = match &current {
                            Some(v) => *v == r.tag_name,
                            None => false,
                        };

                        if force || !same {
                            (Phase::ListingStale(r), Action::ListDirectory)
                        } else {
                            (Phase::Finished(Outcome::UpToDate), Action::Finish(Outcome::UpToDate))
                        }
                    }
                },
                Event::ReleaseUnavailable(k) => fail(Stage::FetchLatestMetadata, k),
                _ => fail(Stage::FetchLatestMetadata, ErrorKind::OutOfOrder),
            },
            Phase::ListingStale(r) => match event {
                Event::Listed(names) => {
                    let stale = stale_filter_files(&names);
                    (Phase::Removing(r), Action::RemoveFiles(stale))
                },
                Event::ListFailed => fail(Stage::RemoveStaleFiles, ErrorKind::Io),
                _ => fail(Stage::RemoveStaleFiles, ErrorKind::OutOfOrder),
            },
            Phase::Removing(r) => match event {
                Event::Removed => (Phase::Downloading, Action::FetchArchive(r.zipball_url)),
                Event::RemoveFailed => fail(Stage::RemoveStaleFiles, ErrorKind::Io),
                _ => fail(Stage::RemoveStaleFiles, ErrorKind::OutOfOrder),
            },
            Phase::Downloading => match event {
                Event::ArchiveFetched(bytes) => match extract_filters(bytes) {
                    Ok(files) => {
                        let report = file_report(&files);
                        (Phase::Writing(report), Action::WriteFiles(files))
                    },
                    Err(_) => fail(Stage::Install, ErrorKind::Archive),
                },
                Event::ArchiveUnavailable => fail(Stage::FetchArchive, ErrorKind::Network),
                _ => fail(Stage::FetchArchive, ErrorKind::OutOfOrder),
            },
            Phase::Writing(report) => match event {
                Event::Written => {
                    let again = copy_report(&report);
                    (Phase::Finished(Outcome::Updated(report)), Action::Finish(Outcome::Updated(again)))
                },
                Event::WriteFailed => fail(Stage::Install, ErrorKind::Io),
                _ => fail(Stage::Install, ErrorKind::OutOfOrder),
            },
            Phase::Finished(o) => {
                let copy = match &o {
                    Outcome::UpToDate => Outcome::UpToDate,
                    Outcome::Updated(report) => Outcome::Updated(copy_report(report)),
                };
                (Phase::Finished(o), Action::Finish(copy))
            },
            Phase::Failed(err) => (Phase::Failed(err), Action::Fail(err)),
        };
        self.phase = p2;
        a
    }
}


/// The phase reached and the actions handed out when the events arrive one
/// after another, starting in phase `p`, each archive being readable.
pub open spec fn run(force: bool, p: PhaseView, events: Seq<EventView>) -> (PhaseView, Seq<
    ActionView,
>)
    decreases events.len(),
{
    if events.len() == 0 {
        (p, seq![])
    } else {
        let (p1, a) = next(force, p, events[0]);
        let (p2, rest) = run(force, p1, events.drop_first());
        (p2, seq![a] + rest)
    }
}

/// No action removes or writes a file.
pub open spec fn touches_no_file(actions: Seq<ActionView>) -> bool {
    forall|k: int|
        0 <= k < actions.len() ==> !(actions[k] is RemoveFiles) && !(actions[k] is WriteFiles)
}

/// A listing without any installed filter file leaves the installed version
/// unknown, which later calls for a replacement.
pub proof fn lemma_probe_not_found(force: bool, names: Seq<Seq<char>>)
    requires
        forall|k: int| 0 <= k < names.len() ==> !is_filter_name(#[trigger] names[k]),
    ensures
        next(force, PhaseView::Listing, EventView::Listed(names)) == (
            PhaseView::Fetching(None),
            ActionView::FetchRelease,
        ),
        forall|tag: Seq<char>| needs_replace(force, None, tag),
{
    crate::naming::lemma_no_filter_found(names);
}

/// An unforced run against a directory whose installed filter declares the
/// tag of the latest release ends up to date, removing and writing nothing;
/// so a second run after an update from the same release does nothing.
pub proof fn lemma_current_install_left_alone(
    names: Seq<Seq<char>>,
    text: Seq<char>,
    release: ReleaseView,
)
    requires
        first_filter(names) is Some,
        version_of(text) == Some(release.tag),
        is_rfc3339(release.published_at),
    ensures
        ({
            let (p, actions) = run(
                false,
                PhaseView::Locating,
                seq![
                    EventView::DirectoryReady,
                    EventView::Listed(names),
                    EventView::FileRead(text),
                    EventView::ReleaseFetched(release),
                ],
            );
            &&& p == PhaseView::Finished(OutcomeView::UpToDate)
            &&& actions.last() == ActionView::Finish(OutcomeView::UpToDate)
            &&& touches_no_file(actions)
        }),
{
    let events = seq![
        EventView::DirectoryReady,
        EventView::Listed(names),
        EventView::FileRead(text),
        EventView::ReleaseFetched(release),
    ];
    reveal_with_fuel(run, 5);
    assert(events.drop_first().drop_first().drop_first().drop_first() =~= Seq::<EventView>::empty());
    assert(events.drop_first()[0] == EventView::Listed(names));
    assert(events.drop_first().drop_first()[0] == EventView::FileRead(text));
    assert(events.drop_first().drop_first().drop_first()[0] == EventView::ReleaseFetched(release));
    let (p, actions) = run(false, PhaseView::Locating, events);
    assert(actions.len() == 4);
    assert(touches_no_file(actions));
}

/// A forced run replaces the installed files even when they are current: it
/// lists the directory, removes every installed filter, downloads the
/// release archive and writes the files it selects, then ends updated with
/// those files; bytes that are no readable archive end it with an archive
/// failure at installation instead.
pub proof fn lemma_forced_run_replaces(
    current: Option<Seq<char>>,
    release: ReleaseView,
    names: Seq<Seq<char>>,
    bytes: Seq<u8>,
)
    requires
        is_rfc3339(release.published_at),
    ensures
        archive_readable(bytes) ==> run(
            true,
            PhaseView::Fetching(current),
            seq![
                EventView::ReleaseFetched(release),
                EventView::Listed(names),
                EventView::Removed,
                EventView::ArchiveFetched(bytes),
                EventView::Written,
            ],
        ) == (
            PhaseView::Finished(
                OutcomeView::Updated(report_of(selected_members(zip_members(bytes)))),
            ),
            seq![
                ActionView::ListDirectory,
                ActionView::RemoveFiles(filter_names(names)),
                ActionView::FetchArchive(release.url),
                ActionView::WriteFiles(selected_members(zip_members(bytes))),
                ActionView::Finish(
                    OutcomeView::Updated(report_of(selected_members(zip_members(bytes)))),
                ),
            ],
        ),
        !archive_readable(bytes) ==> run(
            true,
            PhaseView::Fetching(current),
            seq![
                EventView::ReleaseFetched(release),
                EventView::Listed(names),
                EventView::Removed,
                EventView::ArchiveFetched(bytes),
            ],
        ).0 == failure(Stage::Install, ErrorKind::Archive).0,
{
    let events = seq![
        EventView::ReleaseFetched(release),
        EventView::Listed(names),
        EventView::Removed,
        EventView::ArchiveFetched(bytes),
        EventView::Written,
    ];
    let short = seq![
        EventView::ReleaseFetched(release),
        EventView::Listed(names),
        EventView::Removed,
        EventView::ArchiveFetched(bytes),
    ];
    reveal_with_fuel(run, 6);
    let e1 = events.drop_first();
    let e2 = e1.drop_first();
    let e3 = e2.drop_first();
    let e4 = e3.drop_first();
    assert(e4.drop_first() =~= Seq::<EventView>::empty());
    assert(e1[0] == EventView::Listed(names));
    assert(e2[0] == EventView::Removed);
    assert(e3[0] == EventView::ArchiveFetched(bytes));
    assert(e4[0] == EventView::Written);
    let s1 = short.drop_first();
    let s2 = s1.drop_first();
    let s3 = s2.drop_first();
    assert(s3.drop_first() =~= Seq::<EventView>::empty());
    assert(s1[0] == EventView::Listed(names));
    assert(s2[0] == EventView::Removed);
    assert(s3[0] == EventView::ArchiveFetched(bytes));
    if archive_readable(bytes) {
        let r = run(true, PhaseView::Fetching(current), events);
        assert(r.1 =~= seq![
            ActionView::ListDirectory,
            ActionView::RemoveFiles(filter_names(names)),
            ActionView::FetchArchive(release.url),
            ActionView::WriteFiles(selected_members(zip_members(bytes))),
            ActionView::Finish(
                OutcomeView::Updated(report_of(selected_members(zip_members(bytes)))),
            ),
        ]);
    }
}

/// A download that fails after the stale files were removed ends the run
/// with a network failure at that stage, leaving no filter installed; a
/// rerun then finds no filter, replaces, and, given a readable archive, ends
/// updated with the files it selects.
pub proof fn lemma_rerun_after_failed_download(
    force: bool,
    release: ReleaseView,
    names: Seq<Seq<char>>,
    bytes: Seq<u8>,
)
    requires
        is_rfc3339(release.published_at),
        forall|k: int| 0 <= k < names.len() ==> !is_filter_name(#[trigger] names[k]),
        archive_readable(bytes),
    ensures
        next(force, PhaseView::Downloading, EventView::ArchiveUnavailable) == failure(
            Stage::FetchArchive,
            ErrorKind::Network,
        ),
        run(
            false,
            PhaseView::Locating,
            seq![
                EventView::DirectoryReady,
                EventView::Listed(names),
                EventView::ReleaseFetched(release),
                EventView::Listed(names),
                EventView::Removed,
                EventView::ArchiveFetched(bytes),
                EventView::Written,
            ],
        ).0 == PhaseView::Finished(
            OutcomeView::Updated(report_of(selected_members(zip_members(bytes)))),
        ),
{
    crate::naming::lemma_no_filter_found(names);
    let events = seq![
        EventView::DirectoryReady,
        EventView::Listed(names),
        EventView::ReleaseFetched(release),
        EventView::Listed(names),
        EventView::Removed,
        EventView::ArchiveFetched(bytes),
        EventView::Written,
    ];
    reveal_with_fuel(run, 8);
    let e1 = events.drop_first();
    let e2 = e1.drop_first();
    let e3 = e2.drop_first();
    let e4 = e3.drop_first();
    let e5 = e4.drop_first();
    let e6 = e5.drop_first();
    let e7 = e6.drop_first();
    assert(e7 =~= Seq::<EventView>::empty());
    assert(e1[0] == EventView::Listed(names));
    assert(e2[0] == EventView::ReleaseFetched(release));
    assert(e3[0] == EventView::Listed(names));
    assert(e4[0] == EventView::Removed);
    assert(e5[0] == EventView::ArchiveFetched(bytes));
    assert(e6[0] == EventView::Written);
}

} // verus!

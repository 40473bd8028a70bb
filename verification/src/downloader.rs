//! A download run, as a machine that is asked what to do next.
//!
//! The program around it makes directories, fetches pages, looks for files,
//! waits, downloads and reports. After each of these it hands the run a `Reply`,
//! together with the cancellation flag as it then stands, and gets back a
//! `Step`: the next `Command`, the progress to report, and the identity to
//! record in the manifest file. Albums and pictures are taken strictly one
//! after the other, and the flag is looked at before each album and each
//! picture.

use crate::discovery::{discovered, extract_image_urls};
use crate::files::{filename_of, image_filename, slug_of, slugify};
use crate::order::{strictly_ascending, with_text, TextSet};
use crate::text::{append_chars, chars_of, string_of};
use crate::urls::{extract_image_id, image_id};
use crate::{Album, AlbumView, DownloadProgress, DownloadResult, DownloadSettings, ProgressView};
use vstd::prelude::*;

verus! {

/// Where a run stands.
#[derive(Debug, Clone, Copy, PartialEq, Eq)]
pub enum Phase {
    /// The output directory was asked for: a run starts here.
    AwaitOutput,
    /// Before an album: the flag is looked at, then the page is asked for.
    AlbumStart,
    /// The page of the album was asked for.
    AwaitPage,
    /// The directory of the album was asked for.
    AwaitDirectory,
    /// Before a picture: the flag is looked at, then the picture is judged.
    ImageStart,
    /// The file of the picture is being looked for.
    AwaitProbe,
    /// The run waits before it asks the server for the picture.
    AwaitPause,
    /// The picture is being downloaded.
    AwaitDownload,
    /// The run went through all its albums and has its result.
    Finished,
    /// The run found the flag set, stopped, and has its result.
    Cancelled,
    /// The run gave up.
    Aborted,
}

/// How a picture ended.
#[derive(Debug, Clone, Copy, PartialEq, Eq)]
pub enum Outcome {
    Downloaded,
    Skipped,
    Failed,
}

/// What the program did on the last command.
#[derive(Debug, Clone, PartialEq, Eq)]
pub enum Reply {
    /// Nothing was asked.
    Nothing,
    /// The page of the album, as text.
    Page { html: String },
    /// The page could not be had.
    PageFailed,
    /// The directory asked for is there.
    DirectoryReady,
    /// The directory asked for could not be made.
    DirectoryFailed { reason: String },
    /// A file of that name is there already.
    FileFound,
    /// No file of that name is there.
    FileMissing,
    /// The wait is over.
    Paused,
    /// The picture was downloaded and written.
    Saved,
    /// The server answered the download with a status that is no success.
    Refused { status: String },
    /// The request, the reading of the answer or the writing of the file failed.
    Failed { reason: String },
}

/// A reply, as contracts see it.
pub enum ReplyView {
    Nothing,
    Page { html: Seq<char> },
    PageFailed,
    DirectoryReady,
    DirectoryFailed { reason: Seq<char> },
    FileFound,
    FileMissing,
    Paused,
    Saved,
    Refused { status: Seq<char> },
    Failed { reason: Seq<char> },
}

impl View for Reply {
    type V = ReplyView;

    open spec fn view(&self) -> ReplyView {
        match self {
            Reply::Nothing => ReplyView::Nothing,
            Reply::Page { html } => ReplyView::Page { html: html@ },
            Reply::PageFailed => ReplyView::PageFailed,
            Reply::DirectoryReady => ReplyView::DirectoryReady,
            Reply::DirectoryFailed { reason } => ReplyView::DirectoryFailed { reason: reason@ },
            Reply::FileFound => ReplyView::FileFound,
            Reply::FileMissing => ReplyView::FileMissing,
            Reply::Paused => ReplyView::Paused,
            Reply::Saved => ReplyView::Saved,
            Reply::Refused { status } => ReplyView::Refused { status: status@ },
            Reply::Failed { reason } => ReplyView::Failed { reason: reason@ },
        }
    }
}

/// What the program is to do next.
#[derive(Debug, Clone, PartialEq, Eq)]
pub enum Command {
    /// Nothing: hand in `Reply::Nothing` and the flag.
    Proceed,
    /// Make the output directory `path` and what lies above it; reply
    /// `DirectoryReady` or `DirectoryFailed`.
    MakeOutputDirectory { path: String },
    /// Fetch the page at `url`; reply `Page` or `PageFailed`.
    FetchPage { url: String },
    /// Make the directory `directory` under the output directory; reply
    /// `DirectoryReady` or `DirectoryFailed`.
    MakeDirectory { directory: String },
    /// Look for the file `filename` in `directory`; reply `FileFound` or
    /// `FileMissing`.
    ProbeFile { directory: String, filename: String },
    /// Wait `milliseconds` milliseconds; reply `Paused`.
    Pause { milliseconds: u64 },
    /// Download `url` and write it to `filename` in `directory`; reply
    /// `Saved`, `Refused` or `Failed`.
    Download { url: String, directory: String, filename: String },
    /// The run is over: this is its result.
    Finish { result: DownloadResult },
    /// The run gave up: this is why.
    Abort { error: String },
}

/// A command, as contracts see it.
pub enum CommandView {
    Proceed,
    MakeOutputDirectory { path: Seq<char> },
    FetchPage { url: Seq<char> },
    MakeDirectory { directory: Seq<char> },
    ProbeFile { directory: Seq<char>, filename: Seq<char> },
    Pause { milliseconds: u64 },
    Download { url: Seq<char>, directory: Seq<char>, filename: Seq<char> },
    Finish { result: DownloadResult },
    Abort { error: Seq<char> },
}

impl View for Command {
    type V = CommandView;

    open spec fn view(&self) -> CommandView {
        match self {
            Command::Proceed => CommandView::Proceed,
            Command::MakeOutputDirectory { path } => CommandView::MakeOutputDirectory { path: path@ },
            Command::FetchPage { url } => CommandView::FetchPage { url: url@ },
            Command::MakeDirectory { directory } => CommandView::MakeDirectory {
                directory: directory@,
            },
            Command::ProbeFile { directory, filename } => CommandView::ProbeFile {
                directory: directory@,
                filename: filename@,
            },
            Command::Pause { milliseconds } => CommandView::Pause { milliseconds: *milliseconds },
            Command::Download { url, directory, filename } => CommandView::Download {
                url: url@,
                directory: directory@,
                filename: filename@,
            },
            Command::Finish { result } => CommandView::Finish { result: *result },
            Command::Abort { error } => CommandView::Abort { error: error@ },
        }
    }
}

/// What a run answers: the next command, the progress to report, if a
/// picture was just settled, and the identity to add to the manifest file,
/// if there is one to add.
#[derive(Debug, Clone, PartialEq, Eq)]
pub struct Step {
    pub command: Command,
    pub progress: Option<DownloadProgress>,
    pub record: Option<String>,
}

/// A step, as contracts see it.
pub struct StepView {
    pub command: CommandView,
    pub progress: Option<ProgressView>,
    pub record: Option<Seq<char>>,
}

impl View for Step {
    type V = StepView;

    open spec fn view(&self) -> StepView {
        StepView {
            command: self.command@,
            progress: self.progress.deep_view(),
            record: self.record.deep_view(),
        }
    }
}

/// A run, as contracts see it.
pub struct RunView {
    /// The albums to download, in their order.
    pub albums: Seq<AlbumView>,
    /// The directory that everything is written under.
    pub out_dir: Seq<char>,
    /// The most pictures taken of one album; zero for all.
    pub limit: nat,
    /// The wait before each download, in milliseconds.
    pub delay_ms: u64,
    /// The identities that are downloaded.
    pub manifest: Seq<Seq<char>>,
    /// The picture URLs that this run has judged.
    pub seen: Seq<Seq<char>>,
    pub downloaded: nat,
    pub skipped: nat,
    pub failed: nat,
    /// The index of the album in work.
    pub album: nat,
    /// The pictures of that album, cut to the limit.
    pub images: Seq<Seq<char>>,
    /// The index of the picture in work.
    pub image: nat,
    /// The directory of the album in work.
    pub directory: Seq<char>,
    /// The file name of the picture in work.
    pub filename: Seq<char>,
    /// The identity of the picture in work.
    pub identity: Option<Seq<char>>,
    pub phase: Phase,
    /// Why the run gave up, if it did.
    pub error: Seq<char>,
}

impl RunView {
    /// How many pictures were settled.
    pub open spec fn outcomes(self) -> nat {
        self.downloaded + self.skipped + self.failed
    }

    /// The run is in a state that `DownloadRun::new` and `DownloadRun::step`
    /// lead to.
    pub open spec fn wf(self) -> bool {
        &&& self.album <= self.albums.len()
        &&& self.outcomes() <= usize::MAX
        &&& strictly_ascending(self.manifest)
        &&& strictly_ascending(self.seen)
        &&& match self.phase {
            Phase::AwaitPage => self.album < self.albums.len(),
            Phase::AwaitDirectory | Phase::ImageStart => self.album < self.albums.len()
                && self.image <= self.images.len(),
            Phase::AwaitProbe | Phase::AwaitPause | Phase::AwaitDownload => self.album
                < self.albums.len() && self.image < self.images.len(),
            _ => true,
        }
    }

    /// Another picture can be counted.
    pub open spec fn has_room(self) -> bool {
        self.outcomes() < usize::MAX
    }
}

/// The sum of the run as it stands.
pub open spec fn result_of(run: RunView) -> DownloadResult {
    DownloadResult {
        total_albums: run.albums.len() as usize,
        total_images: run.downloaded as usize,
        skipped: run.skipped as usize,
        failed: run.failed as usize,
    }
}

/// A step that reports and records nothing.
pub open spec fn quiet(command: CommandView) -> StepView {
    StepView { command, progress: None, record: None }
}

/// The report on the picture in work.
pub open spec fn report(run: RunView, status: Seq<char>) -> ProgressView {
    ProgressView {
        album_title: run.albums[run.album as int].title,
        album_index: run.album as int + 1,
        album_total: run.albums.len() as int,
        image_index: run.image as int + 1,
        image_total: run.images.len() as int,
        filename: run.filename,
        status,
    }
}

/// The command that the run, in its phase, waits to be answered.
pub open spec fn pending(run: RunView) -> CommandView {
    match run.phase {
        Phase::AwaitOutput => CommandView::MakeOutputDirectory { path: run.out_dir },
        Phase::AlbumStart | Phase::ImageStart => CommandView::Proceed,
        Phase::AwaitPage => CommandView::FetchPage { url: run.albums[run.album as int].url },
        Phase::AwaitDirectory => CommandView::MakeDirectory { directory: run.directory },
        Phase::AwaitProbe => CommandView::ProbeFile {
            directory: run.directory,
            filename: run.filename,
        },
        Phase::AwaitPause => CommandView::Pause { milliseconds: run.delay_ms },
        Phase::AwaitDownload => CommandView::Download {
            url: run.images[run.image as int],
            directory: run.directory,
            filename: run.filename,
        },
        Phase::Finished | Phase::Cancelled => CommandView::Finish { result: result_of(run) },
        Phase::Aborted => CommandView::Abort { error: run.error },
    }
}

/// The run moved to `phase`, and the command of that phase.
pub open spec fn moved(run: RunView, phase: Phase) -> (RunView, StepView) {
    let next = RunView { phase, ..run };
    (next, quiet(pending(next)))
}

/// The first `limit` of `images`; all of them where `limit` is zero.
pub open spec fn limited(images: Seq<Seq<char>>, limit: nat) -> Seq<Seq<char>> {
    if limit > 0 && images.len() > limit {
        images.take(limit as int)
    } else {
        images
    }
}

/// The identity of the picture in work is in the manifest.
pub open spec fn known(run: RunView) -> bool {
    run.identity matches Some(id) && run.manifest.contains(id)
}

/// The picture in work is settled: counted, reported with `status`, and its
/// identity `record`, if any, added to the manifest. The next picture is in
/// work.
pub open spec fn settled(
    run: RunView,
    outcome: Outcome,
    status: Seq<char>,
    record: Option<Seq<char>>,
) -> (RunView, StepView) {
    let next = RunView {
        downloaded: if outcome == Outcome::Downloaded {
            run.downloaded + 1
        } else {
            run.downloaded
        },
        skipped: if outcome == Outcome::Skipped {
            run.skipped + 1
        } else {
            run.skipped
        },
        failed: if outcome == Outcome::Failed {
            run.failed + 1
        } else {
            run.failed
        },
        manifest: match record {
            Some(id) => with_text(run.manifest, id),
            None => run.manifest,
        },
        image: run.image + 1,
        phase: Phase::ImageStart,
        ..run
    };
    (
        next,
        StepView { command: CommandView::Proceed, progress: Some(report(run, status)), record },
    )
}

/// Before an album: a run that finds the flag set stops, and one that is
/// through its albums finishes; any other asks for the page of the album.
pub open spec fn start_album(run: RunView, cancelled: bool) -> (RunView, StepView) {
    if cancelled {
        moved(run, Phase::Cancelled)
    } else if run.album >= run.albums.len() {
        moved(run, Phase::Finished)
    } else {
        moved(run, Phase::AwaitPage)
    }
}

/// The page is there: its pictures are discovered and cut to the limit, and
/// the directory named after the title of the album is asked for.
pub open spec fn open_album(run: RunView, html: Seq<char>) -> (RunView, StepView) {
    let album = run.albums[run.album as int];
    moved(
        RunView {
            images: limited(discovered(html, album.url), run.limit),
            image: 0,
            directory: slug_of(album.title),
            ..run
        },
        Phase::AwaitDirectory,
    )
}

/// The album is left and the next one is in work.
pub open spec fn next_album(run: RunView) -> (RunView, StepView) {
    moved(RunView { album: run.album + 1, ..run }, Phase::AlbumStart)
}

/// Before a picture: a run that finds the flag set stops; after the last
/// picture the next album is in work; a URL seen in this run, and then a picture whose
/// identity is in the manifest, is skipped; for any other its file is looked
/// for.
pub open spec fn start_image(run: RunView, cancelled: bool) -> (RunView, StepView) {
    if cancelled {
        moved(run, Phase::Cancelled)
    } else if run.image >= run.images.len() {
        next_album(run)
    } else {
        let url = run.images[run.image as int];
        let named = RunView {
            filename: filename_of(url, run.image + 1),
            identity: image_id(url),
            ..run
        };
        if run.seen.contains(url) {
            settled(named, Outcome::Skipped, "skipped"@, None)
        } else {
            let marked = RunView { seen: with_text(run.seen, url), ..named };
            if known(marked) {
                settled(marked, Outcome::Skipped, "skipped"@, None)
            } else {
                moved(marked, Phase::AwaitProbe)
            }
        }
    }
}

/// The file is there already: the picture is skipped, and its identity
/// recorded unless the manifest has it.
pub open spec fn found_on_disk(run: RunView) -> (RunView, StepView) {
    settled(
        run,
        Outcome::Skipped,
        "skipped"@,
        if known(run) {
            None
        } else {
            run.identity
        },
    )
}

/// No file is there: the picture is to be downloaded, after the wait where
/// one is set.
pub open spec fn fetch(run: RunView) -> (RunView, StepView) {
    if run.delay_ms > 0 {
        moved(run, Phase::AwaitPause)
    } else {
        moved(run, Phase::AwaitDownload)
    }
}

/// The picture was written: it is counted as downloaded and its identity
/// recorded.
pub open spec fn saved(run: RunView) -> (RunView, StepView) {
    settled(run, Outcome::Downloaded, "downloaded"@, run.identity)
}

/// The picture could not be had: it is counted as failed and reported with
/// the reason. Nothing is recorded.
pub open spec fn failed(run: RunView, reason: Seq<char>) -> (RunView, StepView) {
    settled(run, Outcome::Failed, "failed: "@ + reason, None)
}

/// The run gives up for `reason`.
pub open spec fn aborted(run: RunView, reason: Seq<char>) -> (RunView, StepView) {
    moved(RunView { error: reason, ..run }, Phase::Aborted)
}

/// The run after `reply`, with the flag at `cancelled`, and what it
/// answers. A reply that the phase does not wait for changes nothing and is
/// answered with the pending command.
pub open spec fn stepped(run: RunView, reply: ReplyView, cancelled: bool) -> (RunView, StepView) {
    match run.phase {
        Phase::AwaitOutput => match reply {
            ReplyView::DirectoryReady => moved(run, Phase::AlbumStart),
            ReplyView::DirectoryFailed { reason } => aborted(run, reason),
            _ => (run, quiet(pending(run))),
        },
        Phase::AlbumStart => start_album(run, cancelled),
        Phase::AwaitPage => match reply {
            ReplyView::Page { html } => open_album(run, html),
            ReplyView::PageFailed => next_album(run),
            _ => (run, quiet(pending(run))),
        },
        Phase::AwaitDirectory => match reply {
            ReplyView::DirectoryReady => moved(run, Phase::ImageStart),
            ReplyView::DirectoryFailed { reason } => aborted(run, reason),
            _ => (run, quiet(pending(run))),
        },
        Phase::ImageStart => start_image(run, cancelled),
        Phase::AwaitProbe => match reply {
            ReplyView::FileFound => found_on_disk(run),
            ReplyView::FileMissing => fetch(run),
            _ => (run, quiet(pending(run))),
        },
        Phase::AwaitPause => match reply {
            ReplyView::Paused => moved(run, Phase::AwaitDownload),
            _ => (run, quiet(pending(run))),
        },
        Phase::AwaitDownload => match reply {
            ReplyView::Saved => saved(run),
            ReplyView::Refused { status } => failed(run, "HTTP "@ + status),
            ReplyView::Failed { reason } => failed(run, reason),
            _ => (run, quiet(pending(run))),
        },
        Phase::Finished | Phase::Cancelled | Phase::Aborted => (run, quiet(pending(run))),
    }
}

/// A run at its start: it waits for the output directory, with nothing
/// seen and nothing counted.
pub open spec fn started(
    albums: Seq<AlbumView>,
    out_dir: Seq<char>,
    limit: nat,
    delay_ms: u64,
    manifest: Seq<Seq<char>>,
) -> RunView {
    RunView {
        albums,
        out_dir,
        limit,
        delay_ms,
        manifest,
        seen: Seq::empty(),
        downloaded: 0,
        skipped: 0,
        failed: 0,
        album: 0,
        images: Seq::empty(),
        image: 0,
        directory: Seq::empty(),
        filename: Seq::empty(),
        identity: None,
        phase: Phase::AwaitOutput,
        error: Seq::empty(),
    }
}

/// A download run.
pub struct DownloadRun {
    albums: Vec<Album>,
    out_dir: String,
    limit: usize,
    delay_ms: u64,
    manifest: TextSet,
    seen: TextSet,
    downloaded: usize,
    skipped: usize,
    failed: usize,
    album: usize,
    images: Vec<String>,
    image: usize,
    directory: String,
    filename: String,
    identity: Option<String>,
    phase: Phase,
    error: String,
}

fn copy_text(text: &Option<String>) -> (r: Option<String>)
    ensures
        r.deep_view() == text.deep_view(),
{
    match text {
        Some(t) => Some(t.clone()),
        None => None,
    }
}

impl DownloadRun {
    /// The run, as contracts see it.
    pub closed spec fn view(&self) -> RunView {
        RunView {
            albums: self.albums.deep_view(),
            out_dir: self.out_dir@,
            limit: self.limit as nat,
            delay_ms: self.delay_ms,
            manifest: self.manifest@,
            seen: self.seen@,
            downloaded: self.downloaded as nat,
            skipped: self.skipped as nat,
            failed: self.failed as nat,
            album: self.album as nat,
            images: self.images.deep_view(),
            image: self.image as nat,
            directory: self.directory@,
            filename: self.filename@,
            identity: self.identity.deep_view(),
            phase: self.phase,
            error: self.error@,
        }
    }

    /// A run over `albums` with the settings `settings`, which knows the
    /// identities in `manifest` as downloaded. Its first step, whatever it
    /// is handed, asks for the output directory.
    pub fn new(albums: Vec<Album>, settings: &DownloadSettings, manifest: TextSet) -> (run:
        DownloadRun)
        ensures
            run@ == started(
                albums.deep_view(),
                settings.out_dir@,
                settings.limit_per_album as nat,
                settings.delay_ms,
                manifest@,
            ),
            run@.wf(),
            run@.has_room(),
    {
        let seen = TextSet::new();
        let images: Vec<String> = Vec::new();
        // The length comes with the fact that the set is in ascending order.
        let _known = manifest.len();
        assert(images.deep_view() =~= Seq::empty());
        assert(albums.deep_view().len() == albums.len());
        DownloadRun {
            albums,
            out_dir: settings.out_dir.clone(),
            limit: settings.limit_per_album,
            delay_ms: settings.delay_ms,
            manifest,
            seen,
            downloaded: 0,
            skipped: 0,
            failed: 0,
            album: 0,
            images,
            image: 0,
            directory: String::new(),
            filename: String::new(),
            identity: None,
            phase: Phase::AwaitOutput,
            error: String::new(),
        }
    }

    /// Where the run stands.
    pub fn phase(&self) -> (r: Phase)
        ensures
            r == self@.phase,
    {
        self.phase
    }

    /// The sum of the run as it stands.
    pub fn result(&self) -> (r: DownloadResult)
        ensures
            r == result_of(self@),
    {
        DownloadResult {
            total_albums: self.albums.len(),
            total_images: self.downloaded,
            skipped: self.skipped,
            failed: self.failed,
        }
    }

    /// Whether another picture can be counted: `step` asks for it.
    pub fn has_room(&self) -> (r: bool)
        requires
            self@.wf(),
        ensures
            r == self@.has_room(),
    {
        self.downloaded < usize::MAX - self.skipped - self.failed
    }

    /// The identities that are downloaded, those of this run among them.
    pub fn into_manifest(self) -> (r: TextSet)
        ensures
            r@ == self@.manifest,
    {
        self.manifest
    }

    fn pending_command(&self) -> (r: Command)
        requires
            self@.wf(),
        ensures
            r@ == pending(self@),
    {
        match self.phase {
            Phase::AwaitOutput => Command::MakeOutputDirectory { path: self.out_dir.clone() },
            Phase::AlbumStart => Command::Proceed,
            Phase::ImageStart => Command::Proceed,
            Phase::AwaitPage => Command::FetchPage { url: self.albums[self.album].url.clone() },
            Phase::AwaitDirectory => Command::MakeDirectory { directory: self.directory.clone() },
            Phase::AwaitProbe => Command::ProbeFile {
                directory: self.directory.clone(),
                filename: self.filename.clone(),
            },
            Phase::AwaitPause => Command::Pause { milliseconds: self.delay_ms },
            Phase::AwaitDownload => Command::Download {
                url: self.images[self.image].clone(),
                directory: self.directory.clone(),
                filename: self.filename.clone(),
            },
            Phase::Finished => Command::Finish { result: self.result() },
            Phase::Cancelled => Command::Finish { result: self.result() },
            Phase::Aborted => Command::Abort { error: self.error.clone() },
        }
    }

    fn idle(&self) -> (step: Step)
        requires
            self@.wf(),
        ensures
            step@ == quiet(pending(self@)),
    {
        Step { command: self.pending_command(), progress: None, record: None }
    }

    fn move_to(&mut self, phase: Phase) -> (step: Step)
        requires
            moved(old(self)@, phase).0.wf(),
        ensures
            (final(self)@, step@) == moved(old(self)@, phase),
            final(self)@.wf(),
    {
        self.phase = phase;
        self.idle()
    }

    fn next_album(&mut self) -> (step: Step)
        requires
            old(self)@.wf(),
            old(self)@.album < old(self)@.albums.len(),
        ensures
            (final(self)@, step@) == next_album(old(self)@),
            final(self)@.wf(),
    {
        assert(self.albums.deep_view().len() == self.albums.len());
        self.album = self.album + 1;
        self.move_to(Phase::AlbumStart)
    }

    fn open_album(&mut self, html: &str) -> (step: Step)
        requires
            old(self)@.wf(),
            old(self)@.phase == Phase::AwaitPage,
        ensures
            (final(self)@, step@) == open_album(old(self)@, html@),
            final(self)@.wf(),
    {
        let mut images = extract_image_urls(html, self.albums[self.album].url.as_str());
        let ghost all = images.deep_view();
        if self.limit > 0 && images.len() > self.limit {
            images.truncate(self.limit);
            assert(images.deep_view() =~= all.take(self.limit as int));
        }
        assert(images.deep_view().len() == images.len());
        self.images = images;
        self.image = 0;
        self.directory = slugify(self.albums[self.album].title.as_str());
        self.move_to(Phase::AwaitDirectory)
    }

    fn settle(&mut self, outcome: Outcome, status: String, record: Option<String>) -> (step: Step)
        requires
            old(self)@.wf(),
            old(self)@.has_room(),
            old(self)@.album < old(self)@.albums.len(),
            old(self)@.image < old(self)@.images.len(),
        ensures
            (final(self)@, step@) == settled(old(self)@, outcome, status@, record.deep_view()),
            final(self)@.wf(),
    {
        assert(self.albums.deep_view().len() == self.albums.len());
        assert(self.images.deep_view().len() == self.images.len());
        let progress = DownloadProgress {
            album_title: self.albums[self.album].title.clone(),
            album_index: self.album + 1,
            album_total: self.albums.len(),
            image_index: self.image + 1,
            image_total: self.images.len(),
            filename: self.filename.clone(),
            status,
        };
        match outcome {
            Outcome::Downloaded => {
                self.downloaded = self.downloaded + 1;
            },
            Outcome::Skipped => {
                self.skipped = self.skipped + 1;
            },
            Outcome::Failed => {
                self.failed = self.failed + 1;
            },
        }
        match &record {
            Some(id) => {
                self.manifest.insert(id.clone());
            },
            None => {},
        }
        self.image = self.image + 1;
        self.phase = Phase::ImageStart;
        Step { command: Command::Proceed, progress: Some(progress), record }
    }

    fn is_known(&self) -> (r: bool)
        ensures
            r == known(self@),
    {
        match &self.identity {
            Some(id) => self.manifest.contains(id.as_str()),
            None => false,
        }
    }

    fn start_image(&mut self, cancelled: bool) -> (step: Step)
        requires
            old(self)@.wf(),
            old(self)@.has_room(),
            old(self)@.phase == Phase::ImageStart,
        ensures
            (final(self)@, step@) == start_image(old(self)@, cancelled),
            final(self)@.wf(),
    {
        if cancelled {
            return self.move_to(Phase::Cancelled);
        }
        if self.image >= self.images.len() {
            return self.next_album();
        }
        let url = self.images[self.image].clone();
        self.filename = image_filename(url.as_str(), self.image + 1);
        self.identity = extract_image_id(url.as_str());
        if self.seen.contains(url.as_str()) {
            return self.settle(Outcome::Skipped, String::from_str("skipped"), None);
        }
        self.seen.insert(url);
        if self.is_known() {
            self.settle(Outcome::Skipped, String::from_str("skipped"), None)
        } else {
            self.move_to(Phase::AwaitProbe)
        }
    }

    fn fail(&mut self, prefix: &str, reason: &str) -> (step: Step)
        requires
            old(self)@.wf(),
            old(self)@.has_room(),
            old(self)@.phase == Phase::AwaitDownload,
        ensures
            (final(self)@, step@) == failed(old(self)@, prefix@ + reason@),
            final(self)@.wf(),
    {
        let mut status = chars_of("failed: ");
        append_chars(&mut status, &chars_of(prefix));
        append_chars(&mut status, &chars_of(reason));
        assert(status@ =~= "failed: "@ + (prefix@ + reason@));
        self.settle(Outcome::Failed, string_of(&status), None)
    }

    /// Takes the reply to the last command, and the cancellation flag as it
    /// stands, and says what to do next.
    ///
    /// Every picture that is settled is counted once and reported once. A
    /// run that finds the flag set before an album or a picture finishes
    /// with the counts it has. Nothing that is in the manifest leaves it.
    pub fn step(&mut self, reply: Reply, cancelled: bool) -> (step: Step)
        requires
            old(self)@.wf(),
            old(self)@.has_room(),
        ensures
            final(self)@ == stepped(old(self)@, reply@, cancelled).0,
            step@ == stepped(old(self)@, reply@, cancelled).1,
            final(self)@.wf(),
    {
        match self.phase {
            Phase::AwaitOutput => match reply {
                Reply::DirectoryReady => self.move_to(Phase::AlbumStart),
                Reply::DirectoryFailed { reason } => {
                    self.error = reason;
                    self.move_to(Phase::Aborted)
                },
                _ => self.idle(),
            },
            Phase::AlbumStart => {
                if cancelled {
                    self.move_to(Phase::Cancelled)
                } else if self.album >= self.albums.len() {
                    self.move_to(Phase::Finished)
                } else {
                    self.move_to(Phase::AwaitPage)
                }
            },
            Phase::AwaitPage => match reply {
                Reply::Page { html } => self.open_album(html.as_str()),
                Reply::PageFailed => self.next_album(),
                _ => self.idle(),
            },
            Phase::AwaitDirectory => match reply {
                Reply::DirectoryReady => self.move_to(Phase::ImageStart),
                Reply::DirectoryFailed { reason } => {
                    self.error = reason;
                    self.move_to(Phase::Aborted)
                },
                _ => self.idle(),
            },
            Phase::ImageStart => self.start_image(cancelled),
            Phase::AwaitProbe => match reply {
                Reply::FileFound => {
                    let record = if self.is_known() {
                        None
                    } else {
                        copy_text(&self.identity)
                    };
                    self.settle(Outcome::Skipped, String::from_str("skipped"), record)
                },
                Reply::FileMissing => {
                    if self.delay_ms > 0 {
                        self.move_to(Phase::AwaitPause)
                    } else {
                        self.move_to(Phase::AwaitDownload)
                    }
                },
                _ => self.idle(),
            },
            Phase::AwaitPause => match reply {
                Reply::Paused => self.move_to(Phase::AwaitDownload),
                _ => self.idle(),
            },
            Phase::AwaitDownload => match reply {
                Reply::Saved => {
                    let record = copy_text(&self.identity);
                    self.settle(Outcome::Downloaded, String::from_str("downloaded"), record)
                },
                Reply::Refused { status } => self.fail("HTTP ", status.as_str()),
                Reply::Failed { reason } => {
                    proof {
                        reveal_strlit("");
                        assert(""@ + reason@ =~= reason@);
                    }
                    self.fail("", reason.as_str())
                },
                _ => self.idle(),
            },
            Phase::Finished => self.idle(),
            Phase::Cancelled => self.idle(),
            Phase::Aborted => self.idle(),
        }
    }
}

/// A step leads from a well-formed run with room to a well-formed run.
pub proof fn lemma_step_keeps_wf(run: RunView, reply: ReplyView, cancelled: bool)
    requires
        run.wf(),
        run.has_room(),
    ensures
        stepped(run, reply, cancelled).0.wf(),
{
    if run.phase == Phase::ImageStart && !cancelled && run.image < run.images.len() {
        crate::order::lemma_with_text(run.seen, run.images[run.image as int]);
    }
    if run.identity is Some {
        crate::order::lemma_with_text(run.manifest, run.identity.unwrap());
    }
}

/// A run that finds the flag set before an album or before a picture is
/// over at once: it stops with the counts it has, reports nothing and
/// records nothing.
pub proof fn lemma_cancelled_run_stops(run: RunView, reply: ReplyView)
    requires
        run.phase == Phase::AlbumStart || run.phase == Phase::ImageStart,
    ensures
        stepped(run, reply, true) == (
            RunView { phase: Phase::Cancelled, ..run },
            quiet(CommandView::Finish { result: result_of(run) }),
        ),
{
}

/// With the flag set, a run reports at most the picture that is in work:
/// only a step that answers the search for its file or its download
/// reports, and the step after it stops the run and reports nothing.
pub proof fn lemma_cancelled_run_reports_once(run: RunView, first: ReplyView, second: ReplyView)
    ensures
        ({
            let (next, step) = stepped(run, first, true);
            step.progress is Some ==> {
                &&& run.phase == Phase::AwaitProbe || run.phase == Phase::AwaitDownload
                &&& stepped(next, second, true) == (
                    RunView { phase: Phase::Cancelled, ..next },
                    quiet(CommandView::Finish { result: result_of(next) }),
                )
            }
        }),
{
}

/// The reply is one that the run, in its phase, waits for.
pub open spec fn awaited(run: RunView, reply: ReplyView) -> bool {
    match run.phase {
        Phase::AwaitOutput | Phase::AwaitDirectory => reply is DirectoryReady
            || reply is DirectoryFailed,
        Phase::AwaitPage => reply is Page || reply is PageFailed,
        Phase::AwaitProbe => reply is FileFound || reply is FileMissing,
        Phase::AwaitPause => reply is Paused,
        Phase::AwaitDownload => reply is Saved || reply is Refused || reply is Failed,
        _ => true,
    }
}

/// The run is over: finished, stopped or given up.
pub open spec fn is_over(run: RunView) -> bool {
    run.phase == Phase::Finished || run.phase == Phase::Cancelled || run.phase == Phase::Aborted
}

/// With the flag set, a run that is handed the replies it waits for is over
/// after four steps at most: what is in work is brought to its end, and
/// nothing new is begun.
pub proof fn lemma_cancelled_run_ends(
    run: RunView,
    first: ReplyView,
    second: ReplyView,
    third: ReplyView,
    fourth: ReplyView,
)
    requires
        awaited(run, first),
        awaited(stepped(run, first, true).0, second),
        awaited(stepped(stepped(run, first, true).0, second, true).0, third),
        awaited(stepped(stepped(stepped(run, first, true).0, second, true).0, third, true).0, fourth),
    ensures
        is_over(
            stepped(
                stepped(stepped(stepped(run, first, true).0, second, true).0, third, true).0,
                fourth,
                true,
            ).0,
        ),
{
}

/// A run that is over stays as it is, whatever it is handed: it gives its
/// result again, with all the albums it was given counted in it, and
/// reports nothing more.
pub proof fn lemma_finished_run_stays(run: RunView, reply: ReplyView, cancelled: bool)
    requires
        run.phase == Phase::Finished || run.phase == Phase::Cancelled,
    ensures
        stepped(run, reply, cancelled) == (
            run,
            quiet(CommandView::Finish { result: result_of(run) }),
        ),
        result_of(run).total_albums == run.albums.len() as usize,
{
}

/// A page that cannot be had costs its album and nothing else: the run
/// goes on to the next album, with its counts as they are, and still counts
/// every album in its result.
pub proof fn lemma_failed_page_skips_album(run: RunView, cancelled: bool)
    requires
        run.phase == Phase::AwaitPage,
    ensures
        ({
            let (next, step) = stepped(run, ReplyView::PageFailed, cancelled);
            &&& next == RunView { album: run.album + 1, phase: Phase::AlbumStart, ..run }
            &&& step == quiet(CommandView::Proceed)
            &&& result_of(next) == result_of(run)
            &&& result_of(next).total_albums == run.albums.len() as usize
        }),
{
}

/// A picture whose identity is in the manifest is skipped before anything
/// is asked of the disk or the network: it is counted and reported as
/// skipped, and the manifest stays as it is.
pub proof fn lemma_known_picture_is_skipped(run: RunView, reply: ReplyView)
    requires
        run.phase == Phase::ImageStart,
        run.image < run.images.len(),
        image_id(run.images[run.image as int]) matches Some(id) && run.manifest.contains(id),
    ensures
        ({
            let (next, step) = stepped(run, reply, false);
            &&& step.command == CommandView::Proceed
            &&& step.progress matches Some(p) && p.status == "skipped"@
            &&& step.record is None
            &&& next.skipped == run.skipped + 1
            &&& next.downloaded == run.downloaded
            &&& next.failed == run.failed
            &&& next.manifest == run.manifest
            &&& next.image == run.image + 1
        }),
{
}

/// A picture whose URL this run has judged before is skipped before
/// anything is asked of the disk or the network, whatever the manifest
/// holds: it is counted and reported as skipped, and nothing is recorded.
pub proof fn lemma_seen_picture_is_skipped(run: RunView, reply: ReplyView)
    requires
        run.phase == Phase::ImageStart,
        run.image < run.images.len(),
        run.seen.contains(run.images[run.image as int]),
    ensures
        ({
            let (next, step) = stepped(run, reply, false);
            &&& step.command == CommandView::Proceed
            &&& step.progress matches Some(p) && p.status == "skipped"@
            &&& step.record is None
            &&& next.skipped == run.skipped + 1
            &&& next.downloaded == run.downloaded
            &&& next.failed == run.failed
            &&& next.manifest == run.manifest
            &&& next.seen == run.seen
            &&& next.image == run.image + 1
        }),
{
}

/// Every step that settles a picture counts it once and reports it once;
/// every other step counts nothing and reports nothing.
pub proof fn lemma_one_report_per_picture(run: RunView, reply: ReplyView, cancelled: bool)
    ensures
        ({
            let (next, step) = stepped(run, reply, cancelled);
            &&& next.downloaded >= run.downloaded
            &&& next.skipped >= run.skipped
            &&& next.failed >= run.failed
            &&& step.progress is Some ==> next.outcomes() == run.outcomes() + 1
            &&& step.progress is None ==> next.outcomes() == run.outcomes()
            &&& step.progress matches Some(p) ==> p.album_index == run.album + 1 && p.image_index
                == run.image + 1 && p.album_total == run.albums.len() && p.image_total
                == run.images.len()
        }),
{
}

/// The manifest only grows: a step takes no identity out of it, and adds
/// the one it hands out to be recorded, and no other. An identity is
/// recorded only for a picture whose file was written or found.
pub proof fn lemma_manifest_only_grows(run: RunView, reply: ReplyView, cancelled: bool)
    requires
        run.wf(),
    ensures
        ({
            let (next, step) = stepped(run, reply, cancelled);
            &&& forall|id: Seq<char>|
                next.manifest.contains(id) <==> (run.manifest.contains(id) || step.record == Some(
                    id,
                ))
            &&& step.record is Some ==> (run.phase == Phase::AwaitProbe && reply
                == ReplyView::FileFound) || (run.phase == Phase::AwaitDownload && reply
                == ReplyView::Saved)
        }),
{
    if run.identity is Some {
        crate::order::lemma_with_text(run.manifest, run.identity.unwrap());
    }
}

} // verus!

use kidplan_downloader::downloader::{Command, DownloadRun, Phase, Reply, Step};
use kidplan_downloader::manifest::{load_manifest, manifest_line};
use kidplan_downloader::{Album, DownloadProgress, DownloadResult, DownloadSettings};

/// The world that a run talks to: pages by address, the files on disk, the
/// manifest file, and what goes wrong.
struct World {
    pages: Vec<(String, String)>,
    files: Vec<String>,
    manifest: String,
    refused: Vec<String>,
    unwritable: Vec<String>,
    broken_directories: Vec<String>,
    cancel_after_reports: Option<usize>,
    reports: Vec<DownloadProgress>,
    commands: Vec<Command>,
    downloads: Vec<String>,
}

fn world(pages: &[(&str, &str)]) -> World {
    World {
        pages: pages.iter().map(|(u, h)| (u.to_string(), h.to_string())).collect(),
        files: Vec::new(),
        manifest: String::new(),
        refused: Vec::new(),
        unwritable: Vec::new(),
        broken_directories: Vec::new(),
        cancel_after_reports: None,
        reports: Vec::new(),
        commands: Vec::new(),
        downloads: Vec::new(),
    }
}

fn album(id: &str, title: &str) -> Album {
    Album {
        id: id.to_string(),
        title: title.to_string(),
        url: format!("https://app.kidplan.com/bilder/album/{}", id),
        image_count: None,
    }
}

fn settings(limit: usize) -> DownloadSettings {
    DownloadSettings { out_dir: "out".to_string(), delay_ms: 0, limit_per_album: limit }
}

fn img(rest: &str) -> String {
    format!(r#"<img src="https://img.kidplan.com/albumpicture/{}">"#, rest)
}

/// Runs `albums` against the world, as a program around the library does.
fn run(w: &mut World, albums: Vec<Album>, settings: &DownloadSettings) -> Result<DownloadResult, String> {
    w.reports.clear();
    w.commands.clear();
    w.downloads.clear();
    let mut run = DownloadRun::new(albums, settings, load_manifest(&w.manifest));
    let mut reply = Reply::Nothing;
    loop {
        let cancelled = w.cancel_after_reports.map_or(false, |n| w.reports.len() >= n);
        assert!(run.has_room());
        let Step { command, progress, record } = run.step(reply, cancelled);
        if let Some(p) = progress {
            w.reports.push(p);
        }
        if let Some(id) = record {
            w.manifest.push_str(&manifest_line(&id));
        }
        w.commands.push(command.clone());
        reply = match command {
            Command::Proceed => Reply::Nothing,
            Command::MakeOutputDirectory { path } => {
                assert_eq!(path, settings.out_dir);
                if w.broken_directories.contains(&path) {
                    Reply::DirectoryFailed { reason: "read-only file system".to_string() }
                } else {
                    Reply::DirectoryReady
                }
            }
            Command::FetchPage { url } => match w.pages.iter().find(|(u, _)| *u == url) {
                Some((_, html)) => Reply::Page { html: html.clone() },
                None => Reply::PageFailed,
            },
            Command::MakeDirectory { directory } => {
                if w.broken_directories.contains(&directory) {
                    Reply::DirectoryFailed { reason: "permission denied".to_string() }
                } else {
                    Reply::DirectoryReady
                }
            }
            Command::ProbeFile { directory, filename } => {
                if w.files.contains(&format!("{}/{}", directory, filename)) {
                    Reply::FileFound
                } else {
                    Reply::FileMissing
                }
            }
            Command::Pause { milliseconds } => {
                assert!(milliseconds > 0);
                assert_eq!(milliseconds, settings.delay_ms);
                Reply::Paused
            }
            Command::Download { url, directory, filename } => {
                w.downloads.push(url.clone());
                if w.refused.contains(&url) {
                    Reply::Refused { status: "404 Not Found".to_string() }
                } else if w.unwritable.contains(&filename) {
                    Reply::Failed { reason: "disk full".to_string() }
                } else {
                    w.files.push(format!("{}/{}", directory, filename));
                    Reply::Saved
                }
            }
            Command::Finish { result } => {
                let expected = if cancelled { Phase::Cancelled } else { Phase::Finished };
                assert_eq!(run.phase(), expected);
                assert_eq!(run.result(), result);
                return Ok(result);
            }
            Command::Abort { error } => {
                assert_eq!(run.phase(), Phase::Aborted);
                return Err(error);
            }
        };
    }
}

fn statuses(w: &World) -> Vec<(String, String)> {
    w.reports.iter().map(|p| (p.filename.clone(), p.status.clone())).collect()
}

fn pair(a: &str, b: &str) -> (String, String) {
    (a.to_string(), b.to_string())
}

#[test]
fn one_image_is_downloaded_then_skipped_on_the_next_run() {
    let page = r#"<img src="https://img.kidplan.com/albumpicture/?id=7&size=400">"#;
    let mut w = world(&[("https://app.kidplan.com/bilder/album/1", page)]);
    let albums = vec![album("1", "Sommer")];
    let first = run(&mut w, albums.clone(), &settings(0)).unwrap();
    assert_eq!(first, DownloadResult { total_albums: 1, total_images: 1, skipped: 0, failed: 0 });
    assert_eq!(w.downloads, vec!["https://img.kidplan.com/albumpicture/?id=7"]);
    assert_eq!(w.files, vec!["Sommer/id-7.jpg"]);
    assert_eq!(w.manifest, "7\n");
    assert_eq!(
        w.reports,
        vec![DownloadProgress {
            album_title: "Sommer".to_string(),
            album_index: 1,
            album_total: 1,
            image_index: 1,
            image_total: 1,
            filename: "id-7.jpg".to_string(),
            status: "downloaded".to_string(),
        }]
    );
    let second = run(&mut w, albums, &settings(0)).unwrap();
    assert_eq!(second, DownloadResult { total_albums: 1, total_images: 0, skipped: 1, failed: 0 });
    assert!(w.downloads.is_empty());
    assert_eq!(w.files, vec!["Sommer/id-7.jpg"]);
    assert_eq!(w.manifest, "7\n");
    assert_eq!(statuses(&w), vec![pair("id-7.jpg", "skipped")]);
    assert!(!w.commands.iter().any(|c| matches!(c, Command::ProbeFile { .. })));
}

#[test]
fn second_run_downloads_nothing_and_skips_what_the_first_downloaded() {
    let a = format!("{}{}{}", img("?id=1&size=9"), img("?id=2"), img("nameless.png"));
    let b = format!("{}{}", img("?id=3"), img("b.jpg?id=4&size=1"));
    let mut w = world(&[
        ("https://app.kidplan.com/bilder/album/a", &a),
        ("https://app.kidplan.com/bilder/album/b", &b),
    ]);
    let albums = vec![album("a", "Album A"), album("b", "Album B")];
    let first = run(&mut w, albums.clone(), &settings(0)).unwrap();
    assert_eq!(first, DownloadResult { total_albums: 2, total_images: 5, skipped: 0, failed: 0 });
    let files = w.files.clone();
    assert_eq!(files.len(), 5);
    let second = run(&mut w, albums, &settings(0)).unwrap();
    assert_eq!(second, DownloadResult { total_albums: 2, total_images: 0, skipped: 5, failed: 0 });
    assert_eq!(w.files, files);
    assert!(w.downloads.is_empty());
    assert_eq!(w.reports.len(), 5);
    assert!(w.reports.iter().all(|p| p.status == "skipped"));
}

#[test]
fn failed_page_skips_its_album_and_the_run_goes_on() {
    let mut w = world(&[
        ("https://app.kidplan.com/bilder/album/1", &img("?id=1")),
        ("https://app.kidplan.com/bilder/album/3", &img("?id=3")),
    ]);
    let albums = vec![album("1", "One"), album("2", "Two"), album("3", "Three")];
    let result = run(&mut w, albums, &settings(0)).unwrap();
    assert_eq!(result, DownloadResult { total_albums: 3, total_images: 2, skipped: 0, failed: 0 });
    assert_eq!(w.files, vec!["One/id-1.jpg", "Three/id-3.jpg"]);
    assert_eq!(w.reports[1].album_index, 3);
    assert_eq!(w.reports[1].album_total, 3);
    assert_eq!(w.reports[1].album_title, "Three");
}

#[test]
fn cancelling_after_the_first_image_stops_the_run() {
    let a = format!("{}{}{}", img("?id=1"), img("?id=2"), img("?id=3"));
    let mut w = world(&[
        ("https://app.kidplan.com/bilder/album/a", &a),
        ("https://app.kidplan.com/bilder/album/b", &img("?id=4")),
    ]);
    w.cancel_after_reports = Some(1);
    let albums = vec![album("a", "A"), album("b", "B")];
    let result = run(&mut w, albums, &settings(0)).unwrap();
    assert_eq!(result, DownloadResult { total_albums: 2, total_images: 1, skipped: 0, failed: 0 });
    assert_eq!(statuses(&w), vec![pair("id-1.jpg", "downloaded")]);
    assert_eq!(w.files, vec!["A/id-1.jpg"]);
    assert_eq!(w.manifest, "1\n");
    assert!(matches!(w.commands.last(), Some(Command::Finish { .. })));
    let fetched = w.commands.iter().filter(|c| matches!(c, Command::FetchPage { .. })).count();
    assert_eq!(fetched, 1);
}

#[test]
fn cancelled_before_the_start_does_nothing() {
    let mut w = world(&[("https://app.kidplan.com/bilder/album/a", &img("?id=1"))]);
    w.cancel_after_reports = Some(0);
    let result = run(&mut w, vec![album("a", "A")], &settings(0)).unwrap();
    assert_eq!(result, DownloadResult { total_albums: 1, total_images: 0, skipped: 0, failed: 0 });
    assert_eq!(
        w.commands,
        vec![
            Command::MakeOutputDirectory { path: "out".to_string() },
            Command::Proceed,
            Command::Finish { result },
        ]
    );
    assert!(w.reports.is_empty());
}

#[test]
fn finished_run_answers_with_its_result_again() {
    let mut run = DownloadRun::new(Vec::new(), &settings(0), load_manifest(""));
    assert_eq!(run.phase(), Phase::AwaitOutput);
    let output = Command::MakeOutputDirectory { path: "out".to_string() };
    assert_eq!(run.step(Reply::Nothing, false).command, output);
    assert_eq!(run.step(Reply::DirectoryReady, false).command, Command::Proceed);
    let first = run.step(Reply::Nothing, false);
    let expected = DownloadResult { total_albums: 0, total_images: 0, skipped: 0, failed: 0 };
    assert_eq!(first.command, Command::Finish { result: expected });
    for reply in [Reply::Nothing, Reply::Saved, Reply::FileFound, Reply::PageFailed] {
        let again = run.step(reply, false);
        assert_eq!(again, Step { command: Command::Finish { result: expected }, progress: None, record: None });
    }
}

#[test]
fn limit_cuts_the_sorted_list_of_an_album() {
    let a = format!("{}{}{}", img("?id=3"), img("?id=1"), img("?id=2"));
    let mut w = world(&[("https://app.kidplan.com/bilder/album/a", &a)]);
    let result = run(&mut w, vec![album("a", "A")], &settings(2)).unwrap();
    assert_eq!(result, DownloadResult { total_albums: 1, total_images: 2, skipped: 0, failed: 0 });
    assert_eq!(w.files, vec!["A/id-1.jpg", "A/id-2.jpg"]);
    assert!(w.reports.iter().all(|p| p.image_total == 2));
    let mut w = world(&[("https://app.kidplan.com/bilder/album/a", &a)]);
    let result = run(&mut w, vec![album("a", "A")], &settings(3)).unwrap();
    assert_eq!(result.total_images, 3);
    let mut w = world(&[("https://app.kidplan.com/bilder/album/a", &a)]);
    let result = run(&mut w, vec![album("a", "A")], &settings(0)).unwrap();
    assert_eq!(result.total_images, 3);
}

#[test]
fn url_seen_in_this_run_is_skipped_without_asking() {
    let shared = img("shared.jpg");
    let mut w = world(&[
        ("https://app.kidplan.com/bilder/album/a", &shared),
        ("https://app.kidplan.com/bilder/album/b", &shared),
    ]);
    let albums = vec![album("a", "A"), album("b", "B")];
    let result = run(&mut w, albums, &settings(0)).unwrap();
    assert_eq!(result, DownloadResult { total_albums: 2, total_images: 1, skipped: 1, failed: 0 });
    assert_eq!(w.downloads.len(), 1);
    assert_eq!(w.reports.len(), 2);
    assert_eq!(w.reports[1].status, "skipped");
    assert_eq!(w.reports[1].album_title, "B");
    assert_eq!(w.reports[0].filename, w.reports[1].filename);
    assert!(w.reports[0].filename.starts_with("image-0001-"));
    assert!(w.reports[0].filename.ends_with(".jpg"));
    assert_eq!(w.reports[0].filename.len(), "image-0001-".len() + 10 + ".jpg".len());
    assert_eq!(w.manifest, "");
    let probes = w.commands.iter().filter(|c| matches!(c, Command::ProbeFile { .. })).count();
    assert_eq!(probes, 1);
}

#[test]
fn file_on_disk_is_skipped_and_its_identity_recorded() {
    let mut w = world(&[("https://app.kidplan.com/bilder/album/a", &img("x.png?id=55"))]);
    w.files.push("A/id-55.png".to_string());
    let result = run(&mut w, vec![album("a", "A")], &settings(0)).unwrap();
    assert_eq!(result, DownloadResult { total_albums: 1, total_images: 0, skipped: 1, failed: 0 });
    assert!(w.downloads.is_empty());
    assert_eq!(w.manifest, "55\n");
    assert_eq!(statuses(&w), vec![pair("id-55.png", "skipped")]);
}

#[test]
fn failures_are_counted_reported_and_not_recorded() {
    let a = format!("{}{}{}", img("?id=1"), img("?id=2"), img("?id=3"));
    let mut w = world(&[("https://app.kidplan.com/bilder/album/a", &a)]);
    w.refused.push("https://img.kidplan.com/albumpicture/?id=1".to_string());
    w.unwritable.push("id-2.jpg".to_string());
    let result = run(&mut w, vec![album("a", "Album A!")], &settings(0)).unwrap();
    assert_eq!(result, DownloadResult { total_albums: 1, total_images: 1, skipped: 0, failed: 2 });
    assert_eq!(
        statuses(&w),
        vec![
            pair("id-1.jpg", "failed: HTTP 404 Not Found"),
            pair("id-2.jpg", "failed: disk full"),
            pair("id-3.jpg", "downloaded"),
        ]
    );
    assert_eq!(w.manifest, "3\n");
    assert_eq!(w.files, vec!["Album-A/id-3.jpg"]);
    let indexes: Vec<usize> = w.reports.iter().map(|p| p.image_index).collect();
    assert_eq!(indexes, vec![1, 2, 3]);
}

#[test]
fn directory_that_cannot_be_made_aborts_the_run() {
    let mut w = world(&[
        ("https://app.kidplan.com/bilder/album/a", &img("?id=1")),
        ("https://app.kidplan.com/bilder/album/b", &img("?id=2")),
    ]);
    w.broken_directories.push("B".to_string());
    let albums = vec![album("a", "A"), album("b", "B")];
    assert_eq!(run(&mut w, albums, &settings(0)), Err("permission denied".to_string()));
    assert_eq!(w.files, vec!["A/id-1.jpg"]);
    assert_eq!(w.reports.len(), 1);
}

#[test]
fn reply_that_is_not_waited_for_changes_nothing() {
    let albums = vec![album("a", "A")];
    let mut run = DownloadRun::new(albums, &settings(0), load_manifest(""));
    let fetch = Command::FetchPage { url: "https://app.kidplan.com/bilder/album/a".to_string() };
    let output = Command::MakeOutputDirectory { path: "out".to_string() };
    for reply in [Reply::Nothing, Reply::Saved, Reply::PageFailed] {
        let step = run.step(reply, true);
        assert_eq!(step, Step { command: output.clone(), progress: None, record: None });
    }
    assert_eq!(run.step(Reply::DirectoryReady, false).command, Command::Proceed);
    assert_eq!(run.step(Reply::Nothing, false).command, fetch);
    assert_eq!(run.phase(), Phase::AwaitPage);
    for reply in [Reply::Nothing, Reply::Saved, Reply::FileMissing, Reply::DirectoryReady] {
        let step = run.step(reply, true);
        assert_eq!(step, Step { command: fetch.clone(), progress: None, record: None });
        assert_eq!(run.phase(), Phase::AwaitPage);
    }
    let step = run.step(Reply::Page { html: img("?id=1") }, false);
    assert_eq!(step.command, Command::MakeDirectory { directory: "A".to_string() });
    let step = run.step(Reply::DirectoryReady, false);
    assert_eq!(step.command, Command::Proceed);
    let step = run.step(Reply::Nothing, false);
    assert_eq!(
        step.command,
        Command::ProbeFile { directory: "A".to_string(), filename: "id-1.jpg".to_string() }
    );
    let step = run.step(Reply::FileMissing, false);
    assert_eq!(
        step.command,
        Command::Download {
            url: "https://img.kidplan.com/albumpicture/?id=1".to_string(),
            directory: "A".to_string(),
            filename: "id-1.jpg".to_string(),
        }
    );
    let step = run.step(Reply::Saved, true);
    assert_eq!(step.record, Some("1".to_string()));
    assert_eq!(step.command, Command::Proceed);
    let step = run.step(Reply::Nothing, true);
    let result = DownloadResult { total_albums: 1, total_images: 1, skipped: 0, failed: 0 };
    assert_eq!(step.command, Command::Finish { result });
    let manifest = run.into_manifest();
    assert!(manifest.contains("1"));
    assert_eq!(manifest.len(), 1);
}

#[test]
fn output_directory_that_cannot_be_made_aborts_the_run() {
    let mut w = world(&[("https://app.kidplan.com/bilder/album/a", &img("?id=1"))]);
    w.broken_directories.push("out".to_string());
    assert_eq!(
        run(&mut w, vec![album("a", "A")], &settings(0)),
        Err("read-only file system".to_string())
    );
    assert_eq!(w.commands.len(), 2);
    assert!(w.files.is_empty());
    assert!(w.reports.is_empty());
}

#[test]
fn run_waits_before_every_download_and_before_nothing_else() {
    let a = format!("{}{}{}", img("?id=1"), img("?id=2"), img("?id=3"));
    let mut w = world(&[("https://app.kidplan.com/bilder/album/a", &a)]);
    w.manifest = "2\n".to_string();
    let slow = DownloadSettings { out_dir: "out".to_string(), delay_ms: 250, limit_per_album: 0 };
    let result = run(&mut w, vec![album("a", "A")], &slow).unwrap();
    assert_eq!(result, DownloadResult { total_albums: 1, total_images: 2, skipped: 1, failed: 0 });
    let mut waits = 0;
    for (n, command) in w.commands.iter().enumerate() {
        if let Command::Download { .. } = command {
            assert_eq!(w.commands[n - 1], Command::Pause { milliseconds: 250 });
            waits += 1;
        }
    }
    assert_eq!(waits, 2);
    let pauses = w.commands.iter().filter(|c| matches!(c, Command::Pause { .. })).count();
    assert_eq!(pauses, 2);
}

#[test]
fn run_without_delay_never_waits() {
    let mut w = world(&[("https://app.kidplan.com/bilder/album/a", &img("?id=1"))]);
    let result = run(&mut w, vec![album("a", "A")], &settings(0)).unwrap();
    assert_eq!(result.total_images, 1);
    assert!(!w.commands.iter().any(|c| matches!(c, Command::Pause { .. })));
}

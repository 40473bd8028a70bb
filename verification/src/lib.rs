//! Finds the full-resolution pictures of a photo-album service and decides,
//! image by image, what a download run has to fetch, skip or report.
//!
//! The crate does no input or output. Programs around it fetch pages and
//! write files; what to fetch, what to skip and what to report is decided
//! here, and every contract is stated over sequences of characters.

use vstd::prelude::*;

pub mod catalog;
pub mod digits;
pub mod discovery;
pub mod downloader;
pub mod files;
pub mod manifest;
pub mod order;
pub mod replay;
pub mod session;
pub mod text;
pub mod urls;

verus! {

/// What a user logs in with.
#[derive(Debug, Clone, PartialEq, Eq)]
pub struct Credentials {
    pub email: String,
    pub password: String,
}

/// A kindergarten that an account belongs to.
#[derive(Debug, Clone, PartialEq, Eq)]
pub struct Kindergarten {
    pub id: i64,
    pub name: String,
}

/// An album of the service: its identity, its title, the address of its
/// page and, where the service tells it, the number of its pictures.
#[derive(Debug, Clone, PartialEq, Eq)]
pub struct Album {
    pub id: String,
    pub title: String,
    pub url: String,
    pub image_count: Option<usize>,
}

/// An album, as contracts see it.
pub struct AlbumView {
    pub id: Seq<char>,
    pub title: Seq<char>,
    pub url: Seq<char>,
    pub image_count: Option<usize>,
}

impl View for Album {
    type V = AlbumView;

    open spec fn view(&self) -> AlbumView {
        AlbumView { id: self.id@, title: self.title@, url: self.url@, image_count: self.image_count }
    }
}

impl DeepView for Album {
    type V = AlbumView;

    open spec fn deep_view(&self) -> AlbumView {
        self@
    }
}

/// How a run is to download: where to, how long to wait before each
/// request, and how many pictures to take of one album at most, zero
/// standing for all of them.
#[derive(Debug, Clone, PartialEq, Eq)]
pub struct DownloadSettings {
    pub out_dir: String,
    pub delay_ms: u64,
    pub limit_per_album: usize,
}

impl Default for DownloadSettings {
    fn default() -> (r: DownloadSettings)
        ensures
            r.out_dir@ == "kidplan-albums"@,
            r.delay_ms == 200,
            r.limit_per_album == 0,
    {
        DownloadSettings {
            out_dir: String::from_str("kidplan-albums"),
            delay_ms: 200,
            limit_per_album: 0,
        }
    }
}

/// What a run reports of one picture. Albums and pictures are counted from
/// one; `status` is `downloaded`, `skipped`, or `failed: ` and a reason.
#[derive(Debug, Clone, PartialEq, Eq)]
pub struct DownloadProgress {
    pub album_title: String,
    pub album_index: usize,
    pub album_total: usize,
    pub image_index: usize,
    pub image_total: usize,
    pub filename: String,
    pub status: String,
}

/// A progress report, as contracts see it.
pub struct ProgressView {
    pub album_title: Seq<char>,
    pub album_index: int,
    pub album_total: int,
    pub image_index: int,
    pub image_total: int,
    pub filename: Seq<char>,
    pub status: Seq<char>,
}

impl View for DownloadProgress {
    type V = ProgressView;

    open spec fn view(&self) -> ProgressView {
        ProgressView {
            album_title: self.album_title@,
            album_index: self.album_index as int,
            album_total: self.album_total as int,
            image_index: self.image_index as int,
            image_total: self.image_total as int,
            filename: self.filename@,
            status: self.status@,
        }
    }
}

impl DeepView for DownloadProgress {
    type V = ProgressView;

    open spec fn deep_view(&self) -> ProgressView {
        self@
    }
}

/// The sum of a run: the albums it was given, and the pictures it
/// downloaded, skipped and failed to get.
#[derive(Debug, Clone, Copy, PartialEq, Eq)]
pub struct DownloadResult {
    pub total_albums: usize,
    pub total_images: usize,
    pub skipped: usize,
    pub failed: usize,
}

} // verus!

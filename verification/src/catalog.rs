//! The catalog of albums, gathered page by page from the listing of the
//! service.
//!
//! The program around it asks for one page after the other, at the address
//! that the catalog gives, and hands in what came back. The catalog decides
//! what an album is, which records are new, and when the listing is through.

use crate::digits::{decimal, push_decimal};
use crate::text::{append_chars, chars_of, has_prefix, same_text, starts_with, string_of};
use crate::{Album, AlbumView};
use vstd::prelude::*;

verus! {

/// A record of the listing. The service may leave any field out.
#[derive(Debug, Clone, PartialEq, Eq)]
pub struct AlbumRecord {
    pub album_id: Option<String>,
    pub title: Option<String>,
    pub album_url: Option<String>,
    pub number_of_images: Option<usize>,
}

/// A record of the listing, as contracts see it.
pub struct RecordView {
    pub album_id: Option<Seq<char>>,
    pub title: Option<Seq<char>>,
    pub album_url: Option<Seq<char>>,
    pub number_of_images: Option<usize>,
}

impl View for AlbumRecord {
    type V = RecordView;

    open spec fn view(&self) -> RecordView {
        RecordView {
            album_id: self.album_id.deep_view(),
            title: self.title.deep_view(),
            album_url: self.album_url.deep_view(),
            number_of_images: self.number_of_images,
        }
    }
}

impl DeepView for AlbumRecord {
    type V = RecordView;

    open spec fn deep_view(&self) -> RecordView {
        self@
    }
}

/// The number of records asked for with each page.
pub const PAGE_SIZE: usize = 50;

/// The address of the listing.
pub open spec fn listing_address() -> Seq<char> {
    "https://app.kidplan.com/bilder/GetAlbumsAsJson"@
}

/// The address that the addresses of albums are relative to.
pub open spec fn album_root() -> Seq<char> {
    "https://app.kidplan.com/bilder"@
}

/// The title of an album that has none.
pub open spec fn untitled() -> Seq<char> {
    "Untitled"@
}

/// The address of the page that starts after `skip` records; `stamp` keeps
/// caches from answering.
pub open spec fn page_address(skip: nat, stamp: nat) -> Seq<char> {
    listing_address() + "?take="@ + decimal(PAGE_SIZE as nat) + "&skip="@ + decimal(skip)
        + "&noCache="@ + decimal(stamp)
}

/// The text, or the empty text where there is none.
pub open spec fn text_or_empty(text: Option<Seq<char>>) -> Seq<char> {
    match text {
        Some(t) => t,
        None => Seq::empty(),
    }
}

/// The address of an album: as the record gives it where that starts with
/// `http`, else put behind the album root.
pub open spec fn album_address(raw: Seq<char>) -> Seq<char> {
    if starts_with(raw, "http"@) {
        raw
    } else {
        album_root() + raw
    }
}

/// The album that a record describes.
pub open spec fn album_of(record: RecordView) -> AlbumView {
    AlbumView {
        id: text_or_empty(record.album_id),
        title: match record.title {
            Some(t) => t,
            None => untitled(),
        },
        url: album_address(text_or_empty(record.album_url)),
        image_count: record.number_of_images,
    }
}

/// One of `albums` has the identity `id`.
pub open spec fn has_id(albums: Seq<AlbumView>, id: Seq<char>) -> bool {
    exists|i: int| 0 <= i < albums.len() && (#[trigger] albums[i]).id == id
}

/// `albums` after `records` were read, in order: a record without identity
/// and one whose identity an album already has add nothing.
pub open spec fn absorbed(albums: Seq<AlbumView>, records: Seq<RecordView>) -> Seq<AlbumView>
    decreases records.len(),
{
    if records.len() == 0 {
        albums
    } else {
        let sofar = absorbed(albums, records.drop_last());
        let album = album_of(records.last());
        if album.id.len() == 0 || has_id(sofar, album.id) {
            sofar
        } else {
            sofar.push(album)
        }
    }
}

/// The page with `records` ends the listing: it is empty, or short, or it
/// brought no new album.
pub open spec fn is_last_page(albums: Seq<AlbumView>, records: Seq<RecordView>) -> bool {
    records.len() == 0 || records.len() < PAGE_SIZE || absorbed(albums, records).len()
        == albums.len()
}

/// No album is without identity, and no two have the same.
pub open spec fn distinct_ids(albums: Seq<AlbumView>) -> bool {
    &&& forall|i: int| 0 <= i < albums.len() ==> (#[trigger] albums[i]).id.len() > 0
    &&& forall|i: int, j: int|
        0 <= i < j < albums.len() ==> (#[trigger] albums[i]).id != (#[trigger] albums[j]).id
}

/// Reading records keeps the albums that were there, in their places, adds
/// only albums that the records describe, and leaves the identities distinct.
pub proof fn lemma_absorbed(albums: Seq<AlbumView>, records: Seq<RecordView>)
    requires
        distinct_ids(albums),
    ensures
        distinct_ids(absorbed(albums, records)),
        albums.len() <= absorbed(albums, records).len() <= albums.len() + records.len(),
        absorbed(albums, records).take(albums.len() as int) == albums,
        forall|k: int|
            albums.len() <= k < absorbed(albums, records).len() ==> exists|r: int|
                0 <= r < records.len() && #[trigger] absorbed(albums, records)[k] == album_of(
                    #[trigger] records[r],
                ),
        forall|r: int|
            0 <= r < records.len() && album_of(#[trigger] records[r]).id.len() > 0 ==> has_id(
                absorbed(albums, records),
                album_of(records[r]).id,
            ),
    decreases records.len(),
{
    if records.len() == 0 {
        assert(albums.take(albums.len() as int) == albums);
    } else {
        let head = records.drop_last();
        let sofar = absorbed(albums, head);
        let album = album_of(records.last());
        let all = absorbed(albums, records);
        lemma_absorbed(albums, head);
        assert(all.take(albums.len() as int) == sofar.take(albums.len() as int));
        assert forall|k: int| albums.len() <= k < all.len() implies exists|r: int|
            0 <= r < records.len() && #[trigger] all[k] == album_of(#[trigger] records[r]) by {
            if k < sofar.len() {
                let r = choose|r: int|
                    0 <= r < head.len() && sofar[k] == album_of(#[trigger] head[r]);
                assert(records[r] == head[r]);
            } else {
                assert(all[k] == album_of(records[records.len() - 1]));
            }
        }
        assert forall|r: int|
            0 <= r < records.len() && album_of(#[trigger] records[r]).id.len() > 0 implies has_id(
            all,
            album_of(records[r]).id,
        ) by {
            if r < head.len() {
                assert(records[r] == head[r]);
                let i = choose|i: int|
                    0 <= i < sofar.len() && (#[trigger] sofar[i]).id == album_of(head[r]).id;
                assert(all[i] == sofar[i]);
            } else {
                if has_id(sofar, album.id) {
                    let i = choose|i: int| 0 <= i < sofar.len() && (#[trigger] sofar[i]).id == album.id;
                    assert(all[i] == sofar[i]);
                } else {
                    assert(all[all.len() - 1].id == album.id);
                }
            }
        }
    }
}

/// What came back for a page of the listing.
#[derive(Debug, Clone, PartialEq, Eq)]
pub enum PageReply {
    /// The records of the page.
    Records { records: Vec<AlbumRecord> },
    /// The server answered with a status that is no success.
    Refused { status: String },
    /// The request failed, or the answer could not be read.
    Broken { reason: String },
}

/// What a page means for the listing.
pub enum PageOutcome {
    /// There may be more: ask for the next page.
    More { catalog: AlbumCatalog },
    /// The listing is through: these are its albums.
    Complete { albums: Vec<Album> },
    /// The listing failed as a whole: no album is handed out.
    Failed { error: String },
}

/// The albums gathered so far, and how many records were read. No album
/// of a catalog is without identity, and no two have the same.
pub struct AlbumCatalog {
    albums: Vec<Album>,
    skip: usize,
}

/// What is said of a page that the server refused.
pub open spec fn refusal(status: Seq<char>) -> Seq<char> {
    "Album JSON fetch failed: "@ + status
}

fn text_or_default(text: &Option<String>, default: &str) -> (r: String)
    ensures
        r@ == match text.deep_view() {
            Some(t) => t,
            None => default@,
        },
{
    match text {
        Some(t) => t.clone(),
        None => String::from_str(default),
    }
}

/// The album that `record` describes.
pub fn album_from(record: &AlbumRecord) -> (r: Album)
    ensures
        r@ == album_of(record@),
{
    proof {
        reveal_strlit("");
    }
    let raw = text_or_default(&record.album_url, "");
    let raw_chars = chars_of(raw.as_str());
    assert(raw_chars@ =~= text_or_empty(record@.album_url));
    let url = if has_prefix(&raw_chars, &chars_of("http")) {
        raw
    } else {
        let mut whole = chars_of("https://app.kidplan.com/bilder");
        append_chars(&mut whole, &raw_chars);
        string_of(&whole)
    };
    let id = text_or_default(&record.album_id, "");
    assert(id@ =~= text_or_empty(record@.album_id));
    Album {
        id,
        title: text_or_default(&record.title, "Untitled"),
        url,
        image_count: record.number_of_images,
    }
}

fn holds_id(albums: &Vec<Album>, id: &str) -> (r: bool)
    ensures
        r == has_id(albums.deep_view(), id@),
{
    let mut i: usize = 0;
    while i < albums.len()
        invariant
            i <= albums.len(),
            forall|k: int| 0 <= k < i ==> (#[trigger] albums.deep_view()[k]).id != id@,
        decreases albums.len() - i,
    {
        if same_text(albums[i].id.as_str(), id) {
            assert(albums.deep_view()[i as int].id == id@);
            return true;
        }
        i += 1;
    }
    false
}

/// Adds the albums that `records` describe and that are new.
fn read_into(albums: &mut Vec<Album>, records: &Vec<AlbumRecord>)
    ensures
        final(albums).deep_view() == absorbed(old(albums).deep_view(), records.deep_view()),
{
    let ghost all = records.deep_view();
    let ghost start = albums.deep_view();
    let mut i: usize = 0;
    assert(all.take(0) =~= Seq::empty());
    while i < records.len()
        invariant
            i <= records.len(),
            all == records.deep_view(),
            albums.deep_view() == absorbed(start, all.take(i as int)),
        decreases records.len() - i,
    {
        assert(all.take(i + 1).drop_last() == all.take(i as int));
        let album = album_from(&records[i]);
        if album.id.as_str().unicode_len() > 0 && !holds_id(albums, album.id.as_str()) {
            let ghost before = albums.deep_view();
            albums.push(album);
            assert(albums.deep_view() =~= before.push(album_of(all[i as int])));
        }
        i += 1;
    }
    assert(all.take(records.len() as int) == all);
}

impl AlbumCatalog {
    #[verifier::type_invariant]
    spec fn distinct(self) -> bool {
        distinct_ids(self.albums.deep_view())
    }

    /// The albums gathered so far.
    pub closed spec fn albums(&self) -> Seq<AlbumView> {
        self.albums.deep_view()
    }

    /// How many records were read.
    pub closed spec fn skip(&self) -> nat {
        self.skip as nat
    }

    /// A catalog without albums, before the first page.
    pub fn new() -> (r: AlbumCatalog)
        ensures
            r.albums() == Seq::<AlbumView>::empty(),
            r.skip() == 0,
            distinct_ids(r.albums()),
    {
        let albums: Vec<Album> = Vec::new();
        assert(albums.deep_view() =~= Seq::<AlbumView>::empty());
        AlbumCatalog { albums, skip: 0 }
    }

    /// The address of the page to ask for next. `stamp` is the time in
    /// milliseconds, or any other number that differs from request to
    /// request.
    pub fn page_url(&self, stamp: u128) -> (r: String)
        ensures
            r@ == page_address(self.skip(), stamp as nat),
    {
        let mut url = chars_of("https://app.kidplan.com/bilder/GetAlbumsAsJson");
        append_chars(&mut url, &chars_of("?take="));
        push_decimal(&mut url, PAGE_SIZE as u128);
        append_chars(&mut url, &chars_of("&skip="));
        push_decimal(&mut url, self.skip as u128);
        append_chars(&mut url, &chars_of("&noCache="));
        push_decimal(&mut url, stamp);
        string_of(&url)
    }

    /// Whether a page of `count` records can still be counted: `absorb`
    /// asks for it.
    pub fn has_room_for(&self, count: usize) -> (r: bool)
        ensures
            r == (self.skip() + count <= usize::MAX),
    {
        count <= usize::MAX - self.skip
    }

    /// Takes what came back for the page last asked for.
    ///
    /// A page of records adds its new albums; it ends the listing where it
    /// is empty or short or adds none, and else the next page starts behind
    /// its records. The albums stay without a repeated and without an empty
    /// identity. A page that the server refused, and one that could not be
    /// had, fail the listing as a whole.
    pub fn absorb(self, reply: PageReply) -> (outcome: PageOutcome)
        requires
            reply matches PageReply::Records { records } ==> self.skip() + records.len()
                <= usize::MAX,
        ensures
            match reply {
                PageReply::Records { records } => {
                    let albums = absorbed(self.albums(), records.deep_view());
                    &&& distinct_ids(self.albums())
                    &&& distinct_ids(albums)
                    &&& if is_last_page(self.albums(), records.deep_view()) {
                        outcome matches PageOutcome::Complete { albums: all } && all.deep_view()
                            == albums
                    } else {
                        outcome matches PageOutcome::More { catalog } && catalog.albums() == albums
                            && catalog.skip() == self.skip() + records.len()
                    }
                },
                PageReply::Refused { status } => outcome matches PageOutcome::Failed { error }
                    && error@ == refusal(status@),
                PageReply::Broken { reason } => outcome matches PageOutcome::Failed { error }
                    && error@ == reason@,
            },
    {
        match reply {
            PageReply::Records { records } => {
                proof {
                    use_type_invariant(&self);
                    lemma_absorbed(self.albums.deep_view(), records.deep_view());
                }
                let skip = self.skip;
                let mut albums = self.albums;
                let before = albums.len();
                assert(albums.deep_view().len() == before);
                read_into(&mut albums, &records);
                assert(albums.deep_view().len() == albums.len());
                assert(records.deep_view().len() == records.len());
                if records.len() == 0 || albums.len() == before || records.len() < PAGE_SIZE {
                    PageOutcome::Complete { albums }
                } else {
                    PageOutcome::More { catalog: AlbumCatalog { albums, skip: skip + records.len() } }
                }
            },
            PageReply::Refused { status } => {
                let mut error = chars_of("Album JSON fetch failed: ");
                append_chars(&mut error, &chars_of(status.as_str()));
                PageOutcome::Failed { error: string_of(&error) }
            },
            PageReply::Broken { reason } => PageOutcome::Failed { error: reason },
        }
    }
}

} // verus!

//! What two runs over the same albums do, one after the other, in a world
//! where the pages stay as they are, every directory can be made, every
//! download goes well and no file is lost: whatever the first run has not
//! recorded or found on disk it downloads, and the second run, with the
//! manifest and the disk as the first has left them, skips every picture
//! and downloads nothing.

use crate::discovery::discovered;
use crate::downloader::{limited, started, stepped, Phase, ReplyView, RunView};
use crate::files::{filename_of, slug_of};
use crate::order::{lemma_with_text, lemma_with_texts, strictly_ascending, with_text, with_texts};
use crate::urls::image_id;
use crate::AlbumView;
use vstd::prelude::*;

verus! {

/// A file on disk: the album directory that it lies in, and its name.
pub type File = (Seq<char>, Seq<char>);

/// The world around a run: the page of each album, as text, or none where
/// the page cannot be had; and the files on disk.
pub struct World {
    pub pages: Seq<Option<Seq<char>>>,
    pub files: Set<File>,
}

/// What the program answers in this world: every directory can be made, a
/// file is found if it is on disk, and every download goes well.
pub open spec fn answer(run: RunView, world: World) -> ReplyView {
    match run.phase {
        Phase::AwaitOutput | Phase::AwaitDirectory => ReplyView::DirectoryReady,
        Phase::AwaitPage => match world.pages[run.album as int] {
            Some(html) => ReplyView::Page { html },
            None => ReplyView::PageFailed,
        },
        Phase::AwaitProbe => if world.files.contains((run.directory, run.filename)) {
            ReplyView::FileFound
        } else {
            ReplyView::FileMissing
        },
        Phase::AwaitPause => ReplyView::Paused,
        Phase::AwaitDownload => ReplyView::Saved,
        _ => ReplyView::Nothing,
    }
}

/// The world after the program has done what the run waits for: a download
/// puts its file on disk, and nothing else changes anything.
pub open spec fn acted(run: RunView, world: World) -> World {
    if run.phase == Phase::AwaitDownload {
        World { files: world.files.insert((run.directory, run.filename)), ..world }
    } else {
        world
    }
}

/// The run and the world after `n` steps, with the flag not set.
pub open spec fn replayed(run: RunView, world: World, n: nat) -> (RunView, World)
    decreases n,
{
    if n == 0 {
        (run, world)
    } else {
        replayed(stepped(run, answer(run, world), false).0, acted(run, world), (n - 1) as nat)
    }
}

/// None of the next `n` steps asks for a download or for a wait before
/// one, settles a picture as anything but skipped, or records an identity.
pub open spec fn only_skips(run: RunView, world: World, n: nat) -> bool
    decreases n,
{
    n == 0 || {
        let (next, step) = stepped(run, answer(run, world), false);
        &&& !(step.command is Download)
        &&& !(step.command is Pause)
        &&& step.record is None
        &&& step.progress matches Some(p) ==> p.status == "skipped"@
        &&& only_skips(next, acted(run, world), (n - 1) as nat)
    }
}

/// What is the same in every state of one run, and in both runs: the
/// albums and the settings.
pub struct Setting {
    pub albums: Seq<AlbumView>,
    pub out_dir: Seq<char>,
    pub limit: nat,
    pub delay_ms: u64,
    pub pages: Seq<Option<Seq<char>>>,
}

impl Setting {
    /// The pictures of the album at `k`: those of its page, cut to the
    /// limit; none where the page cannot be had.
    pub open spec fn pictures(self, k: int) -> Seq<Seq<char>> {
        match self.pages[k] {
            Some(html) => limited(discovered(html, self.albums[k].url), self.limit),
            None => Seq::empty(),
        }
    }

    /// The pictures of the albums before the one at `k`, in order.
    pub open spec fn albums_before(self, k: nat) -> Seq<Seq<char>>
        decreases k,
    {
        if k == 0 {
            Seq::empty()
        } else {
            self.albums_before((k - 1) as nat) + self.pictures(k - 1)
        }
    }

    /// The pictures that come before picture `i` of the album at `k`.
    pub open spec fn before(self, k: nat, i: nat) -> Seq<Seq<char>> {
        self.albums_before(k) + self.pictures(k as int).take(i as int)
    }

    /// What a run has seen when it comes to picture `i` of the album at `k`.
    pub open spec fn seen_at(self, k: nat, i: nat) -> Seq<Seq<char>> {
        with_texts(Seq::empty(), self.before(k, i))
    }

    /// The file of picture `i` of the album at `k`.
    pub open spec fn file_of(self, k: int, i: int) -> File {
        (slug_of(self.albums[k].title), filename_of(self.pictures(k)[i], (i + 1) as nat))
    }

    /// Picture `i` of the album at `k` needs no download: its identity is
    /// in the manifest, or it has none and its file is on disk, or the same
    /// URL comes earlier in the run.
    pub open spec fn kept(self, manifest: Seq<Seq<char>>, files: Set<File>, k: int, i: int) -> bool {
        let url = self.pictures(k)[i];
        ||| recorded(manifest, url)
        ||| (image_id(url) is None && files.contains(self.file_of(k, i)))
        ||| self.seen_at(k as nat, i as nat).contains(url)
    }

    /// Every picture before picture `i` of the album at `k` needs no
    /// download.
    pub open spec fn kept_before(
        self,
        manifest: Seq<Seq<char>>,
        files: Set<File>,
        k: nat,
        i: nat,
    ) -> bool {
        forall|a: int, b: int|
            0 <= b < self.pictures(a).len() && (0 <= a < k || (a == k && b < i))
                ==> #[trigger] self.kept(manifest, files, a, b)
    }

    /// The run is one of this setting.
    pub open spec fn holds(self, run: RunView, world: World) -> bool {
        &&& run.albums == self.albums
        &&& run.out_dir == self.out_dir
        &&& run.limit == self.limit
        &&& run.delay_ms == self.delay_ms
        &&& world.pages == self.pages
        &&& self.pages.len() == self.albums.len()
        &&& strictly_ascending(run.manifest)
    }

    /// The run stands before picture `i` of the album at `k`.
    pub open spec fn at_picture(self, run: RunView, world: World, k: nat, i: nat) -> bool {
        &&& self.holds(run, world)
        &&& run.phase == Phase::ImageStart
        &&& run.album == k
        &&& k < self.albums.len()
        &&& run.image == i
        &&& i <= run.images.len()
        &&& run.images == self.pictures(k as int)
        &&& run.directory == slug_of(self.albums[k as int].title)
        &&& run.seen == self.seen_at(k, i)
    }

    /// The run stands before the album at `k`.
    pub open spec fn at_album(self, run: RunView, world: World, k: nat) -> bool {
        &&& self.holds(run, world)
        &&& run.phase == Phase::AlbumStart
        &&& run.album == k
        &&& k <= self.albums.len()
        &&& run.seen == self.seen_at(k, 0)
    }

    /// The number of pictures of the albums before the one at `k`.
    pub open spec fn count_before(self, k: nat) -> nat {
        self.albums_before(k).len()
    }
}

/// The picture `url` has an identity, and the manifest holds it.
pub open spec fn recorded(manifest: Seq<Seq<char>>, url: Seq<char>) -> bool {
    image_id(url) matches Some(id) && manifest.contains(id)
}

/// `later` has lost nothing that `earlier` had, in the manifest or on disk.
pub open spec fn grown(
    earlier: (RunView, World),
    later: (RunView, World),
) -> bool {
    &&& forall|id: Seq<char>| earlier.0.manifest.contains(id) ==> later.0.manifest.contains(id)
    &&& earlier.1.files.subset_of(later.1.files)
}

proof fn lemma_replayed_twice(run: RunView, world: World, a: nat, b: nat)
    ensures
        replayed(run, world, a + b) == replayed(
            replayed(run, world, a).0,
            replayed(run, world, a).1,
            b,
        ),
        only_skips(run, world, a + b) == (only_skips(run, world, a) && only_skips(
            replayed(run, world, a).0,
            replayed(run, world, a).1,
            b,
        )),
    decreases a,
{
    if a > 0 {
        let next = stepped(run, answer(run, world), false).0;
        lemma_replayed_twice(next, acted(run, world), (a - 1) as nat, b);
        assert((a + b - 1) as nat == (a - 1) as nat + b);
    }
}

impl Setting {
    /// What a run has seen after a picture is what it had seen before it,
    /// with that picture.
    proof fn lemma_seen_next(self, k: nat, i: nat)
        requires
            i < self.pictures(k as int).len(),
        ensures
            self.seen_at(k, i + 1) == with_text(self.seen_at(k, i), self.pictures(k as int)[i as int]),
            strictly_ascending(self.seen_at(k, i)),
    {
        let p = self.pictures(k as int);
        assert(p.take(i as int + 1) == p.take(i as int).push(p[i as int]));
        assert(self.before(k, i + 1) == self.before(k, i).push(p[i as int]));
        assert(self.before(k, i + 1).drop_last() == self.before(k, i));
        lemma_with_texts(Seq::empty(), self.before(k, i));
    }

    /// What a run has seen after an album is what it has seen before the
    /// next.
    proof fn lemma_seen_across(self, k: nat)
        ensures
            self.seen_at(k + 1, 0) == self.seen_at(k, self.pictures(k as int).len()),
            self.count_before(k + 1) == self.count_before(k) + self.pictures(k as int).len(),
    {
        let p = self.pictures(k as int);
        assert(p.take(p.len() as int) == p);
        assert(self.pictures(k as int + 1).take(0) =~= Seq::<Seq<char>>::empty());
        assert(self.before(k + 1, 0) =~= self.before(k, p.len()));
    }

    /// One picture of a first run: skipped where it needs no download, else
    /// downloaded, and needing none after that. Gives the number of steps
    /// that it takes.
    proof fn lemma_first_picture(self, run: RunView, world: World, k: nat, i: nat) -> (n: nat)
        requires
            self.at_picture(run, world, k, i),
            i < run.images.len(),
            self.kept_before(run.manifest, world.files, k, i),
        ensures
            ({
                let end = replayed(run, world, n);
                &&& self.at_picture(end.0, end.1, k, i + 1)
                &&& self.kept_before(end.0.manifest, end.1.files, k, i + 1)
                &&& grown((run, world), end)
                &&& end.0.failed == run.failed
                &&& end.0.downloaded + end.0.skipped == run.downloaded + run.skipped + 1
            }),
    {
        let url = run.images[i as int];
        let first = stepped(run, answer(run, world), false).0;
        self.lemma_seen_next(k, i);
        lemma_with_text(run.seen, url);
        assert(replayed(run, world, 1) == (first, world)) by {
            reveal_with_fuel(replayed, 2);
        }
        if run.seen.contains(url) || recorded(run.manifest, url) {
            assert(first.manifest == run.manifest);
            assert(self.kept(first.manifest, world.files, k as int, i as int));
            self.lemma_kept_step(run.manifest, world.files, first.manifest, world.files, k, i);
            1
        } else {
            assert(first.phase == Phase::AwaitProbe);
            assert(first.filename == filename_of(url, i + 1));
            assert(first.identity == image_id(url));
            assert(first.manifest == run.manifest);
            let file = self.file_of(k as int, i as int);
            assert(file == (first.directory, first.filename));
            if first.identity is Some {
                lemma_with_text(run.manifest, first.identity.unwrap());
            }
            let second = stepped(first, answer(first, world), false).0;
            assert(replayed(run, world, 2) == (second, world)) by {
                reveal_with_fuel(replayed, 3);
            }
            if world.files.contains(file) {
                assert(second.phase == Phase::ImageStart);
                self.lemma_kept_step(run.manifest, world.files, second.manifest, world.files, k, i);
                2
            } else if run.delay_ms > 0 {
                assert(second.phase == Phase::AwaitPause);
                let third = stepped(second, answer(second, world), false).0;
                assert(third.phase == Phase::AwaitDownload);
                let fourth = stepped(third, answer(third, world), false).0;
                let after = acted(third, world);
                assert(after.files == world.files.insert(file));
                assert(replayed(run, world, 4) == (fourth, after)) by {
                    reveal_with_fuel(replayed, 5);
                }
                self.lemma_kept_step(run.manifest, world.files, fourth.manifest, after.files, k, i);
                4
            } else {
                assert(second.phase == Phase::AwaitDownload);
                let third = stepped(second, answer(second, world), false).0;
                let after = acted(second, world);
                assert(after.files == world.files.insert(file));
                assert(replayed(run, world, 3) == (third, after)) by {
                    reveal_with_fuel(replayed, 4);
                }
                self.lemma_kept_step(run.manifest, world.files, third.manifest, after.files, k, i);
                3
            }
        }
    }

    /// With one more picture that needs no download, and nothing lost,
    /// every picture up to it needs none.
    proof fn lemma_kept_step(
        self,
        manifest: Seq<Seq<char>>,
        files: Set<File>,
        new_manifest: Seq<Seq<char>>,
        new_files: Set<File>,
        k: nat,
        i: nat,
    )
        requires
            self.kept_before(manifest, files, k, i),
            forall|id: Seq<char>| manifest.contains(id) ==> new_manifest.contains(id),
            files.subset_of(new_files),
            self.kept(new_manifest, new_files, k as int, i as int),
        ensures
            self.kept_before(new_manifest, new_files, k, i + 1),
    {
        assert forall|a: int, b: int|
            0 <= b < self.pictures(a).len() && (0 <= a < k || (a == k && b < i + 1))
                implies #[trigger] self.kept(new_manifest, new_files, a, b) by {
            if !(a == k && b == i) {
                assert(self.kept(manifest, files, a, b));
            }
        }
    }

    /// The pictures that are left of an album of a first run. Gives the
    /// number of steps that they take.
    proof fn lemma_first_rest(self, run: RunView, world: World, k: nat, i: nat) -> (n: nat)
        requires
            self.at_picture(run, world, k, i),
            self.kept_before(run.manifest, world.files, k, i),
        ensures
            ({
                let end = replayed(run, world, n);
                let m = run.images.len();
                &&& self.at_picture(end.0, end.1, k, m)
                &&& self.kept_before(end.0.manifest, end.1.files, k, m)
                &&& grown((run, world), end)
                &&& end.0.failed == run.failed
                &&& end.0.downloaded + end.0.skipped == run.downloaded + run.skipped + (m - i)
            }),
        decreases run.images.len() - i,
    {
        if i >= run.images.len() {
            0
        } else {
            let a = self.lemma_first_picture(run, world, k, i);
            let next = replayed(run, world, a);
            let b = self.lemma_first_rest(next.0, next.1, k, i + 1);
            lemma_replayed_twice(run, world, a, b);
            a + b
        }
    }

    /// One album of a first run. Gives the number of steps that it takes.
    proof fn lemma_first_album(self, run: RunView, world: World, k: nat) -> (n: nat)
        requires
            self.at_album(run, world, k),
            k < self.albums.len(),
            self.kept_before(run.manifest, world.files, k, 0),
        ensures
            ({
                let end = replayed(run, world, n);
                &&& self.at_album(end.0, end.1, k + 1)
                &&& self.kept_before(end.0.manifest, end.1.files, k + 1, 0)
                &&& grown((run, world), end)
                &&& end.0.failed == run.failed
                &&& end.0.downloaded + end.0.skipped == run.downloaded + run.skipped
                    + self.pictures(k as int).len()
            }),
    {
        self.lemma_seen_across(k);
        let asked = stepped(run, answer(run, world), false).0;
        assert(asked.phase == Phase::AwaitPage);
        let got = stepped(asked, answer(asked, world), false).0;
        match self.pages[k as int] {
            None => {
                assert(replayed(run, world, 2) == (got, world)) by {
                    reveal_with_fuel(replayed, 3);
                }
                self.lemma_kept_across(got.manifest, world.files, k);
                2
            },
            Some(html) => {
                assert(got.phase == Phase::AwaitDirectory);
                let ready = stepped(got, answer(got, world), false).0;
                assert(replayed(run, world, 3) == (ready, world)) by {
                    reveal_with_fuel(replayed, 4);
                }
                assert(self.at_picture(ready, world, k, 0));
                let m = self.lemma_first_rest(ready, world, k, 0);
                let through = replayed(ready, world, m);
                let left = stepped(through.0, answer(through.0, through.1), false).0;
                assert(replayed(through.0, through.1, 1) == (left, through.1)) by {
                    reveal_with_fuel(replayed, 2);
                }
                lemma_replayed_twice(ready, world, m, 1);
                lemma_replayed_twice(run, world, 3, m + 1);
                self.lemma_kept_across(left.manifest, through.1.files, k);
                3 + m + 1
            },
        }
    }

    /// Where every picture up to the end of an album needs no download,
    /// every picture before the next album needs none.
    proof fn lemma_kept_across(self, manifest: Seq<Seq<char>>, files: Set<File>, k: nat)
        requires
            self.kept_before(manifest, files, k, self.pictures(k as int).len()),
        ensures
            self.kept_before(manifest, files, k + 1, 0),
    {
        assert forall|a: int, b: int|
            0 <= b < self.pictures(a).len() && (0 <= a < k + 1 || (a == k + 1 && b < 0))
                implies #[trigger] self.kept(manifest, files, a, b) by {
            assert(self.kept(manifest, files, a, b));
        }
    }

    /// The albums of a first run from the one at `k` on. Gives the number
    /// of steps that they take.
    proof fn lemma_first_albums(self, run: RunView, world: World, k: nat) -> (n: nat)
        requires
            self.at_album(run, world, k),
            self.kept_before(run.manifest, world.files, k, 0),
        ensures
            ({
                let end = replayed(run, world, n);
                let all = self.albums.len();
                &&& self.holds(end.0, end.1)
                &&& end.0.phase == Phase::Finished
                &&& self.kept_before(end.0.manifest, end.1.files, all, 0)
                &&& grown((run, world), end)
                &&& end.0.failed == run.failed
                &&& end.0.downloaded + end.0.skipped + self.count_before(k) == run.downloaded
                    + run.skipped + self.count_before(all)
            }),
        decreases self.albums.len() - k,
    {
        if k >= self.albums.len() {
            assert(replayed(run, world, 1) == (stepped(run, answer(run, world), false).0, world))
                by {
                reveal_with_fuel(replayed, 2);
            }
            1
        } else {
            let a = self.lemma_first_album(run, world, k);
            let next = replayed(run, world, a);
            let b = self.lemma_first_albums(next.0, next.1, k + 1);
            lemma_replayed_twice(run, world, a, b);
            self.lemma_seen_across(k);
            a + b
        }
    }

    /// One picture of a second run: it needs no download, and is skipped.
    /// Gives the number of steps that it takes.
    proof fn lemma_second_picture(self, run: RunView, world: World, k: nat, i: nat) -> (n: nat)
        requires
            self.at_picture(run, world, k, i),
            i < run.images.len(),
            self.kept(run.manifest, world.files, k as int, i as int),
        ensures
            ({
                let end = replayed(run, world, n);
                &&& self.at_picture(end.0, end.1, k, i + 1)
                &&& end.0.manifest == run.manifest
                &&& end.1 == world
                &&& end.0.failed == run.failed
                &&& end.0.downloaded == run.downloaded
                &&& end.0.skipped == run.skipped + 1
                &&& only_skips(run, world, n)
            }),
    {
        let url = run.images[i as int];
        let first = stepped(run, answer(run, world), false).0;
        self.lemma_seen_next(k, i);
        lemma_with_text(run.seen, url);
        assert(replayed(run, world, 1) == (first, world)) by {
            reveal_with_fuel(replayed, 2);
        }
        assert(only_skips(run, world, 1)) by {
            reveal_with_fuel(only_skips, 2);
        }
        if run.seen.contains(url) || recorded(run.manifest, url) {
            1
        } else {
            assert(first.phase == Phase::AwaitProbe);
            assert(first.identity is None);
            assert(self.file_of(k as int, i as int) == (first.directory, first.filename));
            let second = stepped(first, answer(first, world), false).0;
            assert(replayed(run, world, 2) == (second, world)) by {
                reveal_with_fuel(replayed, 3);
            }
            assert(only_skips(run, world, 2)) by {
                reveal_with_fuel(only_skips, 3);
            }
            2
        }
    }

    /// The pictures that are left of an album of a second run. Gives the
    /// number of steps that they take.
    proof fn lemma_second_rest(self, run: RunView, world: World, k: nat, i: nat) -> (n: nat)
        requires
            self.at_picture(run, world, k, i),
            self.kept_before(run.manifest, world.files, self.albums.len(), 0),
        ensures
            ({
                let end = replayed(run, world, n);
                let m = run.images.len();
                &&& self.at_picture(end.0, end.1, k, m)
                &&& end.0.manifest == run.manifest
                &&& end.1 == world
                &&& end.0.failed == run.failed
                &&& end.0.downloaded == run.downloaded
                &&& end.0.skipped == run.skipped + (m - i)
                &&& only_skips(run, world, n)
            }),
        decreases run.images.len() - i,
    {
        if i >= run.images.len() {
            0
        } else {
            assert(self.kept(run.manifest, world.files, k as int, i as int));
            let a = self.lemma_second_picture(run, world, k, i);
            let next = replayed(run, world, a);
            let b = self.lemma_second_rest(next.0, next.1, k, i + 1);
            lemma_replayed_twice(run, world, a, b);
            a + b
        }
    }

    /// One album of a second run. Gives the number of steps that it takes.
    proof fn lemma_second_album(self, run: RunView, world: World, k: nat) -> (n: nat)
        requires
            self.at_album(run, world, k),
            k < self.albums.len(),
            self.kept_before(run.manifest, world.files, self.albums.len(), 0),
        ensures
            ({
                let end = replayed(run, world, n);
                &&& self.at_album(end.0, end.1, k + 1)
                &&& end.0.manifest == run.manifest
                &&& end.1 == world
                &&& end.0.failed == run.failed
                &&& end.0.downloaded == run.downloaded
                &&& end.0.skipped == run.skipped + self.pictures(k as int).len()
                &&& only_skips(run, world, n)
            }),
    {
        self.lemma_seen_across(k);
        let asked = stepped(run, answer(run, world), false).0;
        assert(asked.phase == Phase::AwaitPage);
        let got = stepped(asked, answer(asked, world), false).0;
        match self.pages[k as int] {
            None => {
                assert(replayed(run, world, 2) == (got, world)) by {
                    reveal_with_fuel(replayed, 3);
                }
                assert(only_skips(run, world, 2)) by {
                    reveal_with_fuel(only_skips, 3);
                }
                2
            },
            Some(html) => {
                assert(got.phase == Phase::AwaitDirectory);
                let ready = stepped(got, answer(got, world), false).0;
                assert(replayed(run, world, 3) == (ready, world)) by {
                    reveal_with_fuel(replayed, 4);
                }
                assert(only_skips(run, world, 3)) by {
                    reveal_with_fuel(only_skips, 4);
                }
                assert(self.at_picture(ready, world, k, 0));
                let m = self.lemma_second_rest(ready, world, k, 0);
                let through = replayed(ready, world, m);
                let left = stepped(through.0, answer(through.0, through.1), false).0;
                assert(replayed(through.0, through.1, 1) == (left, through.1)) by {
                    reveal_with_fuel(replayed, 2);
                }
                assert(only_skips(through.0, through.1, 1)) by {
                    reveal_with_fuel(only_skips, 2);
                }
                lemma_replayed_twice(ready, world, m, 1);
                lemma_replayed_twice(run, world, 3, m + 1);
                3 + m + 1
            },
        }
    }

    /// The albums of a second run from the one at `k` on. Gives the number
    /// of steps that they take.
    proof fn lemma_second_albums(self, run: RunView, world: World, k: nat) -> (n: nat)
        requires
            self.at_album(run, world, k),
            self.kept_before(run.manifest, world.files, self.albums.len(), 0),
        ensures
            ({
                let end = replayed(run, world, n);
                let all = self.albums.len();
                &&& end.0.phase == Phase::Finished
                &&& end.0.manifest == run.manifest
                &&& end.1 == world
                &&& end.0.failed == run.failed
                &&& end.0.downloaded == run.downloaded
                &&& end.0.skipped + self.count_before(k) == run.skipped + self.count_before(all)
                &&& only_skips(run, world, n)
            }),
        decreases self.albums.len() - k,
    {
        if k >= self.albums.len() {
            assert(replayed(run, world, 1) == (stepped(run, answer(run, world), false).0, world))
                by {
                reveal_with_fuel(replayed, 2);
            }
            assert(only_skips(run, world, 1)) by {
                reveal_with_fuel(only_skips, 2);
            }
            1
        } else {
            let a = self.lemma_second_album(run, world, k);
            let next = replayed(run, world, a);
            let b = self.lemma_second_albums(next.0, next.1, k + 1);
            lemma_replayed_twice(run, world, a, b);
            self.lemma_seen_across(k);
            a + b
        }
    }
}

/// Two runs over the same albums with the same settings, one after the
/// other, in a world where the pages stay as they are, every directory can
/// be made, every download goes well and no file is lost. The first run
/// fails at nothing. The second, with the manifest and the disk as the
/// first has left them, downloads nothing, skips as many pictures as the
/// first has settled, which are all there are, and leaves manifest and disk
/// as they are; none of its steps asks for a download. Gives the numbers
/// of steps that the two runs take.
pub proof fn lemma_second_run_downloads_nothing(
    albums: Seq<AlbumView>,
    out_dir: Seq<char>,
    limit: nat,
    delay_ms: u64,
    manifest: Seq<Seq<char>>,
    world: World,
) -> (n: (nat, nat))
    requires
        world.pages.len() == albums.len(),
        strictly_ascending(manifest),
    ensures
        ({
            let first = replayed(started(albums, out_dir, limit, delay_ms, manifest), world, n.0);
            let again = started(albums, out_dir, limit, delay_ms, first.0.manifest);
            let second = replayed(again, first.1, n.1);
            &&& first.0.phase == Phase::Finished
            &&& first.0.failed == 0
            &&& second.0.phase == Phase::Finished
            &&& second.0.downloaded == 0
            &&& second.0.failed == 0
            &&& second.0.skipped == first.0.downloaded + first.0.skipped
            &&& second.0.manifest == first.0.manifest
            &&& second.1 == first.1
            &&& only_skips(again, first.1, n.1)
        }),
{
    let setting = Setting { albums, out_dir, limit, delay_ms, pages: world.pages };
    let start = started(albums, out_dir, limit, delay_ms, manifest);
    let ready = stepped(start, answer(start, world), false).0;
    assert(replayed(start, world, 1) == (ready, world)) by {
        reveal_with_fuel(replayed, 2);
    }
    assert(setting.seen_at(0, 0) =~= Seq::<Seq<char>>::empty()) by {
        assert(setting.before(0, 0) =~= Seq::<Seq<char>>::empty());
    }
    let a = setting.lemma_first_albums(ready, world, 0);
    lemma_replayed_twice(start, world, 1, a);
    let first = replayed(start, world, 1 + a);

    let again = started(albums, out_dir, limit, delay_ms, first.0.manifest);
    let ready_again = stepped(again, answer(again, first.1), false).0;
    assert(replayed(again, first.1, 1) == (ready_again, first.1)) by {
        reveal_with_fuel(replayed, 2);
    }
    assert(only_skips(again, first.1, 1)) by {
        reveal_with_fuel(only_skips, 2);
    }
    let b = setting.lemma_second_albums(ready_again, first.1, 0);
    lemma_replayed_twice(again, first.1, 1, b);
    (1 + a, 1 + b)
}

} // verus!

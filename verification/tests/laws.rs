use kidplan_downloader::discovery::extract_image_urls;
use kidplan_downloader::files::slugify;
use kidplan_downloader::urls::{extract_image_id, is_album_image_url, upgrade_image_url};

/// A small generator of repeatable pseudo-random numbers.
struct Dice(u64);

impl Dice {
    fn roll(&mut self, sides: usize) -> usize {
        self.0 = self.0.wrapping_mul(6364136223846793005).wrapping_add(1442695040888963407);
        ((self.0 >> 33) as usize) % sides
    }

    fn pick<'a>(&mut self, from: &[&'a str]) -> &'a str {
        from[self.roll(from.len())]
    }

    fn text(&mut self, alphabet: &[&str], longest: usize) -> String {
        let n = self.roll(longest + 1);
        (0..n).map(|_| self.pick(alphabet)).collect()
    }
}

const PIECES: [&str; 30] = [
    "a", "b", "Z", "0", "9", "-", "_", ".", "~", " ", "+", "%", "%2", "%20", "%C3%A5", "&", "=",
    "/", ":", "@", "'", "\"", "<", ">", "å", "日", "size", "id", ";", "\u{1F600}",
];

fn some_url(dice: &mut Dice) -> String {
    let host = dice.pick(&["img.kidplan.com", "cdn.img.kidplan.com", "app.kidplan.com", "IMG.KIDPLAN.COM"]);
    let path = dice.pick(&["/albumpicture/", "/albumpicture/x.jpg", "/other/", "/"]);
    let mut url = format!("{}://{}{}{}", dice.pick(&["https", "http"]), host, path, dice.text(&PIECES[..16], 3));
    if dice.roll(4) > 0 {
        url.push('?');
        let pairs = dice.roll(5);
        for n in 0..pairs {
            if n > 0 {
                url.push('&');
            }
            url.push_str(dice.pick(&["size", "id", "x", "", "Size", "si ze", "a%26b"]));
            if dice.roll(5) > 0 {
                url.push('=');
                url.push_str(&dice.text(&PIECES, 4));
            }
        }
    }
    if dice.roll(4) == 0 {
        url.push('#');
        url.push_str(&dice.text(&PIECES[..12], 3));
    }
    url
}

#[test]
fn upgrade_is_idempotent_where_the_result_holds_no_entity() {
    let mut dice = Dice(7);
    let mut stable = 0;
    for _ in 0..3000 {
        let url = some_url(&mut dice);
        let once = upgrade_image_url(&url);
        if html_escape::decode_html_entities(&once) == once {
            assert_eq!(upgrade_image_url(&once), once, "from {:?}", url);
            stable += 1;
        }
    }
    assert!(stable > 2000);
}

#[test]
fn upgraded_picture_is_a_picture_without_size_and_with_its_identity() {
    let mut dice = Dice(11);
    let mut pictures = 0;
    for _ in 0..3000 {
        let url = some_url(&mut dice);
        let decoded = html_escape::decode_html_entities(&url).into_owned();
        let once = upgrade_image_url(&url);
        assert_eq!(is_album_image_url(&once), is_album_image_url(&decoded), "from {:?}", url);
        assert_eq!(extract_image_id(&once), extract_image_id(&decoded), "from {:?}", url);
        if is_album_image_url(&decoded) {
            pictures += 1;
            let before = url::Url::parse(&decoded).unwrap();
            let after = url::Url::parse(&once).unwrap();
            let kept: Vec<(String, String)> =
                before.query_pairs().into_owned().filter(|(k, _)| k != "size").collect();
            let found: Vec<(String, String)> = after.query_pairs().into_owned().collect();
            assert_eq!(found, kept, "from {:?}", url);
            assert_eq!(after.query().is_none(), kept.is_empty());
            assert_eq!(after.as_str(), once);
        } else {
            assert_eq!(once, decoded);
        }
    }
    assert!(pictures > 500);
}

#[test]
fn discovered_pictures_are_ascending_and_all_pictures() {
    let mut dice = Dice(3);
    for _ in 0..200 {
        let mut html = String::new();
        let mut expected: Vec<String> = Vec::new();
        for _ in 0..dice.roll(8) {
            let url = some_url(&mut dice).replace('"', "%22").replace('<', "%3C").replace('>', "%3E");
            let url = url.replace('&', "&amp;").replace(' ', "%20").replace('\'', "%27");
            let tag = dice.pick(&["img src", "source src", "img data-src", "a href", "img data-full"]);
            html.push_str(&format!("<{}=\"{}\">\n", tag, url));
        }
        let found = extract_image_urls(&html, "https://app.kidplan.com/bilder/album/1");
        for pair in found.windows(2) {
            assert!(pair[0] < pair[1], "{:?}", found);
        }
        for url in &found {
            assert!(is_album_image_url(url), "{:?}", url);
            expected.push(url.clone());
        }
        let mut sorted = expected.clone();
        sorted.sort();
        sorted.dedup();
        assert_eq!(found, sorted);
    }
}

#[test]
fn any_slug_is_clean() {
    let mut dice = Dice(5);
    for _ in 0..2000 {
        let title = dice.text(&PIECES, 12);
        let slug = slugify(&title);
        assert!(slug.chars().all(|c| c.is_ascii_alphanumeric() || c == '-'), "{:?}", slug);
        assert!(!slug.starts_with('-') && !slug.ends_with('-') && !slug.contains("--"), "{:?}", slug);
        let letters: String = title.chars().filter(|c| c.is_ascii_alphanumeric()).collect();
        let kept: String = slug.chars().filter(|c| *c != '-').collect();
        assert_eq!(kept, letters);
    }
}

#[test]
fn slug_is_the_words_of_the_title_joined_by_dashes() {
    let mut dice = Dice(13);
    for _ in 0..2000 {
        let title = dice.text(&PIECES, 12);
        let words: Vec<&str> =
            title.split(|c: char| !c.is_ascii_alphanumeric()).filter(|w| !w.is_empty()).collect();
        assert_eq!(slugify(&title), words.join("-"), "{:?}", title);
    }
    assert_eq!(slugify("ab  c---d_e"), "ab-c-d-e");
    assert_eq!(slugify("  a"), "a");
    assert_eq!(slugify("aB9"), "aB9");
}

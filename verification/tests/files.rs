use kidplan_downloader::files::{fallback_name, image_filename, md5_hash, slugify};
use kidplan_downloader::manifest::{load_manifest, manifest_line, manifest_lines};
use std::collections::hash_map::DefaultHasher;
use std::hash::{Hash, Hasher};

fn is_clean(slug: &str) -> bool {
    slug.chars().all(|c| c.is_ascii_alphanumeric() || c == '-')
        && !slug.starts_with('-')
        && !slug.ends_with('-')
        && !slug.contains("--")
}

#[test]
fn slug_of_a_title_with_foreign_letters() {
    assert_eq!(slugify("My Kid's Åpen Dag!"), "My-Kid-s-pen-Dag");
    assert!(is_clean(&slugify("My Kid's Åpen Dag!")));
}

#[test]
fn slugs_are_clean() {
    let titles = [
        "", " ", "---", "a", " a ", "a  b", "--a--b--", "Sommerfest 2024 (del 1)", "æøå",
        "x---y", "- -", "2024/06/01", "\tTur til skogen\n", "a-b", "-a", "a-", "日本語",
    ];
    for title in titles {
        assert!(is_clean(&slugify(title)), "{:?}", slugify(title));
    }
    assert_eq!(slugify(""), "");
    assert_eq!(slugify("æøå"), "");
    assert_eq!(slugify("--a--b--"), "a-b");
    assert_eq!(slugify("Sommerfest 2024 (del 1)"), "Sommerfest-2024-del-1");
    assert_eq!(slugify("\tTur til skogen\n"), "Tur-til-skogen");
    assert_eq!(slugify("a_b.c"), "a-b-c");
}

#[test]
fn digest_is_that_of_the_default_hasher() {
    for s in ["", "a", "https://img.kidplan.com/albumpicture/a.jpg", "Åpen"] {
        let mut hasher = DefaultHasher::new();
        s.hash(&mut hasher);
        assert_eq!(md5_hash(s), hasher.finish() as u128);
    }
    assert_ne!(md5_hash("a"), md5_hash("b"));
    assert_eq!(md5_hash("same"), md5_hash("same"));
    assert!(md5_hash("anything") <= u64::MAX as u128);
}

#[test]
fn fallback_name_has_place_and_ten_digits_of_the_digest() {
    assert_eq!(fallback_name(1, 0x1234567890abcdef), "image-0001-1234567890.jpg");
    assert_eq!(fallback_name(42, 0xfedcba9876543210), "image-0042-fedcba9876.jpg");
    assert_eq!(fallback_name(12345, 0xabc), "image-12345-abc.jpg");
    assert_eq!(fallback_name(0, 0), "image-0000-0.jpg");
    assert_eq!(fallback_name(9999, 0xffffffffff), "image-9999-ffffffffff.jpg");
}

#[test]
fn image_is_named_by_identity_or_by_place() {
    assert_eq!(image_filename("https://img.kidplan.com/albumpicture/?id=7", 3), "id-7.jpg");
    assert_eq!(
        image_filename("https://img.kidplan.com/albumpicture/pic.PNG?id=abc&x=1", 3),
        "id-abc.png"
    );
    let url = "https://img.kidplan.com/albumpicture/pic.png";
    let digest = format!("{:x}", md5_hash(url));
    assert_eq!(image_filename(url, 3), format!("image-0003-{}.jpg", &digest[..10]));
    let other = "https://example.org/x.gif?id=9";
    let digest = format!("{:x}", md5_hash(other));
    assert_eq!(image_filename(other, 120), format!("image-0120-{}.jpg", &digest[..10]));
}

#[test]
fn manifest_lines_are_trimmed_and_blank_ones_dropped() {
    assert_eq!(manifest_lines(""), Vec::<String>::new());
    assert_eq!(manifest_lines("\n\n  \n"), Vec::<String>::new());
    assert_eq!(manifest_lines("7\n12\n"), vec!["7", "12"]);
    assert_eq!(manifest_lines("  7 \r\n\r\n12"), vec!["7", "12"]);
    assert_eq!(manifest_lines("b\na\nb\n"), vec!["b", "a", "b"]);
    let content = " x \n\ny\r\n   \nz";
    let expected: Vec<String> =
        content.lines().map(|l| l.trim()).filter(|l| !l.is_empty()).map(String::from).collect();
    assert_eq!(manifest_lines(content), expected);
}

#[test]
fn manifest_is_the_set_of_its_lines() {
    let set = load_manifest("b\na\n\n b \nc");
    assert_eq!(set.len(), 3);
    assert!(set.contains("a") && set.contains("b") && set.contains("c"));
    assert!(!set.contains(""));
    assert!(!set.contains(" b "));
    assert_eq!(load_manifest("").len(), 0);
}

#[test]
fn manifest_line_ends_the_identity_with_a_newline() {
    assert_eq!(manifest_line("42"), "42\n");
    let mut file = String::new();
    file.push_str(&manifest_line("7"));
    file.push_str(&manifest_line("a b"));
    let set = load_manifest(&file);
    assert!(set.contains("7") && set.contains("a b"));
    assert_eq!(set.len(), 2);
}

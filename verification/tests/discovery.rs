use kidplan_downloader::discovery::extract_image_urls;

const BASE: &str = "https://app.kidplan.com/bilder/album/12";

#[test]
fn single_image_is_found_without_its_size() {
    let html = r#"<html><body><img src="https://img.kidplan.com/albumpicture/?id=7&size=400"></body></html>"#;
    assert_eq!(
        extract_image_urls(html, BASE),
        vec!["https://img.kidplan.com/albumpicture/?id=7".to_string()]
    );
}

#[test]
fn result_is_sorted_and_without_duplicates() {
    let html = r#"
        <img src="https://img.kidplan.com/albumpicture/?id=9&size=400">
        <img data-src="https://img.kidplan.com/albumpicture/?id=10&amp;size=100">
        <source srcset="https://img.kidplan.com/albumpicture/?id=9&size=800 2x, //img.kidplan.com/albumpicture/?id=3 480w">
        <a href="https://img.kidplan.com/albumpicture/?id=9">full</a>
        <a href="/bilder/other">other</a>
        <script>var u = "https://img.kidplan.com/albumpicture/?id=1&size=5";</script>
    "#;
    let found = extract_image_urls(html, BASE);
    assert_eq!(
        found,
        vec![
            "https://img.kidplan.com/albumpicture/?id=1".to_string(),
            "https://img.kidplan.com/albumpicture/?id=10".to_string(),
            "https://img.kidplan.com/albumpicture/?id=3".to_string(),
            "https://img.kidplan.com/albumpicture/?id=9".to_string(),
        ]
    );
    let mut sorted = found.clone();
    sorted.sort();
    sorted.dedup();
    assert_eq!(found, sorted);
}

#[test]
fn every_way_of_looking_contributes() {
    let attributes = ["src", "data-src", "data-original", "data-full", "data-large", "data-url"];
    for (n, attribute) in attributes.iter().enumerate() {
        let html = format!(
            r#"<img {}="//img.kidplan.com/albumpicture/p{}.jpg?size=1">"#,
            attribute, n
        );
        assert_eq!(
            extract_image_urls(&html, BASE),
            vec![format!("https://img.kidplan.com/albumpicture/p{}.jpg", n)]
        );
    }
    assert_eq!(
        extract_image_urls(r#"<img srcset=" //img.kidplan.com/albumpicture/s.jpg   2x ,, ">"#, BASE),
        vec!["https://img.kidplan.com/albumpicture/s.jpg".to_string()]
    );
    assert_eq!(
        extract_image_urls(r#"<a href="//img.kidplan.com/albumpicture/l.jpg">x</a>"#, BASE),
        vec!["https://img.kidplan.com/albumpicture/l.jpg".to_string()]
    );
    assert_eq!(
        extract_image_urls("see https://img.kidplan.com/albumpicture/r.jpg?size=3>", BASE),
        vec!["https://img.kidplan.com/albumpicture/r.jpg".to_string()]
    );
}

#[test]
fn relative_sources_are_resolved_against_the_page() {
    let html = r#"<img src="/albumpicture/x.jpg"><img src="y.jpg">"#;
    assert_eq!(
        extract_image_urls(html, "https://img.kidplan.com/albumpicture/index.html"),
        vec![
            "https://img.kidplan.com/albumpicture/x.jpg".to_string(),
            "https://img.kidplan.com/albumpicture/y.jpg".to_string(),
        ]
    );
}

#[test]
fn pages_without_pictures_give_nothing() {
    assert!(extract_image_urls("", BASE).is_empty());
    assert!(extract_image_urls("<p>no images</p>", BASE).is_empty());
    assert!(extract_image_urls(r#"<img src="https://example.org/albumpicture/?id=1">"#, BASE).is_empty());
    assert!(extract_image_urls("<img src=<<<<>>> broken", BASE).is_empty());
}

#[test]
fn non_ascii_urls_sort_like_strings() {
    let html = r#"
        <a href="https://img.kidplan.com/albumpicture/?n=%C3%A5">a</a>
        <a href="https://img.kidplan.com/albumpicture/?n=z">b</a>
        <a href="https://img.kidplan.com/albumpicture/?n=A">c</a>
    "#;
    let found = extract_image_urls(html, BASE);
    let mut sorted = found.clone();
    sorted.sort();
    assert_eq!(found, sorted);
    assert_eq!(found.len(), 3);
}

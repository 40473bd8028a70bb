use kidplan_downloader::catalog::{
    album_from, AlbumCatalog, AlbumRecord, PageOutcome, PageReply, PAGE_SIZE,
};
use kidplan_downloader::session::{
    kindergarten_lookup_url, login_form, login_outcome, login_url, lookup_outcome, LoginReply,
    LookupReply,
};
use kidplan_downloader::{Album, Credentials, DownloadSettings, Kindergarten};

fn record(id: &str) -> AlbumRecord {
    AlbumRecord {
        album_id: Some(id.to_string()),
        title: Some(format!("Album {}", id)),
        album_url: Some(format!("/album/{}", id)),
        number_of_images: Some(3),
    }
}

fn page(from: usize, to: usize) -> Vec<AlbumRecord> {
    (from..to).map(|n| record(&n.to_string())).collect()
}

#[test]
fn record_becomes_album() {
    assert_eq!(
        album_from(&record("12")),
        Album {
            id: "12".to_string(),
            title: "Album 12".to_string(),
            url: "https://app.kidplan.com/bilder/album/12".to_string(),
            image_count: Some(3),
        }
    );
    let bare = AlbumRecord { album_id: None, title: None, album_url: None, number_of_images: None };
    assert_eq!(
        album_from(&bare),
        Album {
            id: "".to_string(),
            title: "Untitled".to_string(),
            url: "https://app.kidplan.com/bilder".to_string(),
            image_count: None,
        }
    );
    let absolute = AlbumRecord {
        album_id: Some("x".to_string()),
        title: Some("".to_string()),
        album_url: Some("http://elsewhere.example/a".to_string()),
        number_of_images: Some(0),
    };
    assert_eq!(album_from(&absolute).url, "http://elsewhere.example/a");
    assert_eq!(album_from(&absolute).title, "");
}

#[test]
fn page_address_counts_the_records_read() {
    let catalog = AlbumCatalog::new();
    assert_eq!(
        catalog.page_url(1700000000123),
        "https://app.kidplan.com/bilder/GetAlbumsAsJson?take=50&skip=0&noCache=1700000000123"
    );
    match catalog.absorb(PageReply::Records { records: page(0, PAGE_SIZE) }) {
        PageOutcome::More { catalog } => {
            assert_eq!(
                catalog.page_url(5),
                "https://app.kidplan.com/bilder/GetAlbumsAsJson?take=50&skip=50&noCache=5"
            );
        }
        _ => panic!("a full page of new albums asks for more"),
    }
}

#[test]
fn listing_ends_on_a_short_page() {
    let catalog = AlbumCatalog::new();
    let catalog = match catalog.absorb(PageReply::Records { records: page(0, 50) }) {
        PageOutcome::More { catalog } => catalog,
        _ => panic!("expected more"),
    };
    assert!(catalog.has_room_for(50));
    match catalog.absorb(PageReply::Records { records: page(50, 60) }) {
        PageOutcome::Complete { albums } => {
            assert_eq!(albums.len(), 60);
            assert_eq!(albums[0].id, "0");
            assert_eq!(albums[59].id, "59");
        }
        _ => panic!("expected the end"),
    }
}

#[test]
fn listing_ends_on_an_empty_page_and_on_a_page_without_news() {
    match AlbumCatalog::new().absorb(PageReply::Records { records: Vec::new() }) {
        PageOutcome::Complete { albums } => assert!(albums.is_empty()),
        _ => panic!("expected the end"),
    }
    let catalog = match AlbumCatalog::new().absorb(PageReply::Records { records: page(0, 50) }) {
        PageOutcome::More { catalog } => catalog,
        _ => panic!("expected more"),
    };
    match catalog.absorb(PageReply::Records { records: page(0, 50) }) {
        PageOutcome::Complete { albums } => assert_eq!(albums.len(), 50),
        _ => panic!("expected the end"),
    }
}

#[test]
fn records_without_identity_and_repeated_ones_are_dropped() {
    let mut records = vec![record("a"), record(""), record("b"), record("a")];
    records.push(AlbumRecord {
        album_id: None,
        title: Some("nameless".to_string()),
        album_url: None,
        number_of_images: None,
    });
    match AlbumCatalog::new().absorb(PageReply::Records { records }) {
        PageOutcome::Complete { albums } => {
            let ids: Vec<&str> = albums.iter().map(|a| a.id.as_str()).collect();
            assert_eq!(ids, vec!["a", "b"]);
        }
        _ => panic!("expected the end"),
    }
}

#[test]
fn refused_page_fails_the_whole_listing() {
    let catalog = match AlbumCatalog::new().absorb(PageReply::Records { records: page(0, 50) }) {
        PageOutcome::More { catalog } => catalog,
        _ => panic!("expected more"),
    };
    match catalog.absorb(PageReply::Refused { status: "500 Internal Server Error".to_string() }) {
        PageOutcome::Failed { error } => {
            assert_eq!(error, "Album JSON fetch failed: 500 Internal Server Error")
        }
        _ => panic!("expected a failure"),
    }
    match AlbumCatalog::new().absorb(PageReply::Broken { reason: "timed out".to_string() }) {
        PageOutcome::Failed { error } => assert_eq!(error, "timed out"),
        _ => panic!("expected a failure"),
    }
}

#[test]
fn lookup_address_encodes_the_credentials() {
    let creds = Credentials { email: "a.b+c@kid-plan.no".to_string(), password: "p w/ø~_".to_string() };
    assert_eq!(
        kindergarten_lookup_url(&creds),
        "https://app.kidplan.com/Account/GetKinderGartenIds?username=a.b%2Bc%40kid-plan.no&password=p%20w%2F%C3%B8~_"
    );
    let plain = Credentials { email: "abc".to_string(), password: "".to_string() };
    assert_eq!(
        kindergarten_lookup_url(&plain),
        "https://app.kidplan.com/Account/GetKinderGartenIds?username=abc&password="
    );
}

#[test]
fn login_address_and_form() {
    assert_eq!(login_url(4711), "https://app.kidplan.com/LogOn?kid=4711");
    assert_eq!(login_url(0), "https://app.kidplan.com/LogOn?kid=0");
    assert_eq!(login_url(-5), "https://app.kidplan.com/LogOn?kid=-5");
    let creds = Credentials { email: "me@x.no".to_string(), password: "secret".to_string() };
    assert_eq!(
        login_form(&creds),
        vec![
            ("UserName".to_string(), "me@x.no".to_string()),
            ("Password".to_string(), "secret".to_string()),
            ("RememberMe".to_string(), "true".to_string()),
        ]
    );
}

#[test]
fn lookup_and_login_outcomes() {
    let kids = vec![Kindergarten { id: 1, name: "Solstua".to_string() }];
    assert_eq!(lookup_outcome(LookupReply::Kindergartens { found: kids.clone() }), Ok(kids));
    assert_eq!(
        lookup_outcome(LookupReply::Kindergartens { found: Vec::new() }),
        Err("Login failed: no kindergarten IDs returned. Check credentials.".to_string())
    );
    assert_eq!(
        lookup_outcome(LookupReply::Refused { status: "403 Forbidden".to_string() }),
        Err("Kindergarten lookup failed: 403 Forbidden".to_string())
    );
    assert_eq!(
        lookup_outcome(LookupReply::Broken { reason: "dns".to_string() }),
        Err("dns".to_string())
    );
    assert_eq!(login_outcome(LoginReply::Accepted), Ok(()));
    assert_eq!(
        login_outcome(LoginReply::Refused { status: "401 Unauthorized".to_string() }),
        Err("Login failed: 401 Unauthorized".to_string())
    );
    assert_eq!(
        login_outcome(LoginReply::Broken { reason: "reset".to_string() }),
        Err("reset".to_string())
    );
}

#[test]
fn default_settings() {
    let settings = DownloadSettings::default();
    assert_eq!(settings.out_dir, "kidplan-albums");
    assert_eq!(settings.delay_ms, 200);
    assert_eq!(settings.limit_per_album, 0);
}

#[test]
fn identities_stay_distinct_from_page_to_page() {
    let mut first = page(0, 49);
    first.push(record("7"));
    let catalog = match AlbumCatalog::new().absorb(PageReply::Records { records: first }) {
        PageOutcome::More { catalog } => catalog,
        _ => panic!("a full page with new albums asks for more"),
    };
    let mut second = page(40, 60);
    second.push(record(""));
    match catalog.absorb(PageReply::Records { records: second }) {
        PageOutcome::Complete { albums } => {
            let mut ids: Vec<&str> = albums.iter().map(|a| a.id.as_str()).collect();
            assert_eq!(ids.len(), 60);
            assert!(ids.iter().all(|id| !id.is_empty()));
            ids.sort();
            ids.dedup();
            assert_eq!(ids.len(), 60);
        }
        _ => panic!("a short page ends the listing"),
    }
}

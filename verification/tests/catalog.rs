use alpac::{Error, Ingredients, RecipeVersion, Source};

fn src(url: &str) -> Source {
    Source::new(url.to_string(), None, Vec::new())
}

fn two_version_catalog() -> Ingredients {
    Ingredients::new(
        "demo".to_string(),
        vec![
            ("1.0".to_string(), src("https://example.org/pkg/a-1.0.tar.gz")),
            ("2.0".to_string(), src("https://example.org/pkg/a-2.0.tar.gz")),
        ],
    )
}

#[test]
fn resolve_latest_and_explicit() {
    let cat = two_version_catalog();

    let latest = cat.get_source(&RecipeVersion::Latest).unwrap();
    assert_eq!(latest.url_str(), "https://example.org/pkg/a-2.0.tar.gz");

    let first = cat
        .get_source(&RecipeVersion::Version("1.0".to_string()))
        .unwrap();
    assert_eq!(first.url_str(), "https://example.org/pkg/a-1.0.tar.gz");

    assert_eq!(
        cat.get_source(&RecipeVersion::Version("9.9".to_string()))
            .unwrap_err(),
        Error::UnknownVersion
    );
}

#[test]
fn empty_catalog_has_no_versions() {
    let cat = Ingredients::new("empty".to_string(), Vec::new());
    assert_eq!(
        cat.get_source(&RecipeVersion::Latest).unwrap_err(),
        Error::NoVersionsAvailable
    );
    assert!(cat.get_latest_version().is_none());
    assert!(cat.available_versions().is_empty());
    assert!(cat.get_all_sources().is_empty());
}

#[test]
fn latest_version_is_greatest_label() {
    let cat = two_version_catalog();
    assert_eq!(cat.get_latest_version().unwrap(), "2.0");

    // The order is byte-wise lexicographic, so "9" ranks above "10".
    let cat = Ingredients::new(
        "lex".to_string(),
        vec![
            ("10".to_string(), src("https://example.org/p/ten.tar")),
            ("9".to_string(), src("https://example.org/p/nine.tar")),
        ],
    );
    assert_eq!(cat.get_latest_version().unwrap(), "9");
}

#[test]
fn latest_agrees_with_explicit_request() {
    let cat = two_version_catalog();
    let latest_label = cat.get_latest_version().unwrap();
    let by_latest = cat.get_source(&RecipeVersion::Latest).unwrap();
    let by_label = cat
        .get_source(&RecipeVersion::Version(latest_label))
        .unwrap();
    assert_eq!(by_latest.url_str(), by_label.url_str());
}

#[test]
fn versions_and_descriptors_are_all_listed() {
    let cat = two_version_catalog();
    let mut versions = cat.available_versions();
    versions.sort();
    assert_eq!(versions, vec!["1.0".to_string(), "2.0".to_string()]);

    let all = cat.get_all_sources();
    assert_eq!(all.len(), 2);
    let mut urls: Vec<&str> = all.iter().map(|s| s.url_str()).collect();
    urls.sort();
    assert_eq!(
        urls,
        vec![
            "https://example.org/pkg/a-1.0.tar.gz",
            "https://example.org/pkg/a-2.0.tar.gz",
        ]
    );
}

#[test]
fn later_entry_replaces_earlier_label() {
    let cat = Ingredients::new(
        "dup".to_string(),
        vec![
            ("1.0".to_string(), src("https://example.org/p/old.tar")),
            ("1.0".to_string(), src("https://example.org/p/new.tar")),
        ],
    );
    assert_eq!(cat.available_versions().len(), 1);
    let got = cat
        .get_source(&RecipeVersion::Version("1.0".to_string()))
        .unwrap();
    assert_eq!(got.url_str(), "https://example.org/p/new.tar");
}

#[test]
fn filename_derivation() {
    let s = src("https://example.org/pkg/file-1.2.tar.gz");
    assert_eq!(s.get_filename().unwrap(), "file-1.2.tar.gz");

    let bare_host = src("https://example.org/");
    assert_eq!(bare_host.get_filename().unwrap_err(), Error::MalformedLocation);

    let trailing_slash = src("https://example.org/pkg/");
    assert_eq!(
        trailing_slash.get_filename().unwrap_err(),
        Error::MalformedLocation
    );

    let cannot_be_a_base = src("mailto:someone@example.org");
    assert_eq!(
        cannot_be_a_base.get_filename().unwrap_err(),
        Error::MalformedLocation
    );

    let not_a_url = src("not a url at all");
    assert_eq!(not_a_url.get_filename().unwrap_err(), Error::MalformedLocation);
}

#[test]
fn size_hint_is_advisory() {
    let s = Source::new("https://example.org/a/b".to_string(), Some(1234), Vec::new());
    assert_eq!(s.size_hint(), Some(1234));
    let s = src("https://example.org/a/b");
    assert_eq!(s.size_hint(), None);
}

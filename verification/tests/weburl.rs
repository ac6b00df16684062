use starchart::errors::ServiceError;
use starchart::weburl::{clean_url, get_hostname, Url, MAX_TEXT};

#[test]
fn a_url_is_parsed_and_normalised() {
    let url = Url::parse("HTTPS://Example.COM").unwrap();
    assert_eq!(url.as_str(), "https://example.com/");
    assert_eq!(url.origin(), "https://example.com/");
    assert_eq!(url.host_str(), Some("example.com"));
    assert_eq!(url.scheme(), "https");
    assert_eq!(url.source_str(), "HTTPS://Example.COM");
    assert_eq!(get_hostname(&url), "example.com");
}

#[test]
fn clean_url_drops_path_query_and_fragment() {
    let url = Url::parse("https://test-gitea.example.com/user1/starchart?tab=code#readme").unwrap();
    assert_eq!(url.as_str(), "https://test-gitea.example.com/user1/starchart?tab=code#readme");
    assert_eq!(clean_url(&url), "https://test-gitea.example.com/");
    assert_eq!(get_hostname(&url), "test-gitea.example.com");
    let with_port = Url::parse("http://localhost:8080/api").unwrap();
    assert_eq!(clean_url(&with_port), "http://localhost:8080/");
    assert_eq!(get_hostname(&with_port), "localhost");
}

#[test]
fn what_is_no_url_is_refused() {
    assert!(Url::parse("not a url").is_err());
    assert!(Url::parse("").is_err());
    assert!(Url::parse("/relative/path").is_err());
    let e = Url::parse("example.com").unwrap_err();
    assert!(matches!(e, ServiceError::NotAUrl));
    assert_eq!(e.status_code(), 400);
    let outside = url::Url::parse("example.com").unwrap_err();
    assert!(matches!(ServiceError::from_parse_error(outside), ServiceError::NotAUrl));
}

#[test]
fn path_query_and_fragment_are_replaced() {
    let url = Url::parse("https://user@gitea.example.com:3000/explore?q=1#top").unwrap();
    assert_eq!(
        url.replaced("", None, None),
        Some("https://user@gitea.example.com:3000/".to_string())
    );
    assert_eq!(
        url.replaced("a/b", Some("page=2"), Some("end")),
        Some("https://user@gitea.example.com:3000/a/b?page=2#end".to_string())
    );
    assert_eq!(
        url.replaced("/explore", Some(""), None),
        Some("https://user@gitea.example.com:3000/explore?".to_string())
    );
    assert_eq!(url.as_str(), "https://user@gitea.example.com:3000/explore?q=1#top");
    assert_eq!(clean_url(&url), "https://user@gitea.example.com:3000/");
}

#[test]
fn a_text_that_is_too_long_is_no_url() {
    let mut text = String::from("https://example.com/");
    text.push_str(&"a".repeat(MAX_TEXT - text.len()));
    assert_eq!(text.len(), MAX_TEXT);
    assert!(Url::parse(&text).is_ok());
    text.push('a');
    assert!(matches!(Url::parse(&text), Err(ServiceError::NotAUrl)));

    let url = Url::parse("https://example.com/").unwrap();
    let long = "b".repeat(MAX_TEXT + 1);
    assert_eq!(url.with_path(&long), None);
    assert_eq!(url.replaced(&long, None, None), None);
    assert_eq!(url.replaced("", Some(&long), None), None);
    assert_eq!(url.replaced("", None, Some(&long)), None);
    assert!(url.replaced(&long[1..], None, None).is_some());
}

#[test]
fn cleaning_a_clean_url_changes_nothing() {
    for text in [
        "https://test-gitea.example.com/foo/bar?x=1#y",
        "http://localhost:8080/api",
        "https://example.org",
    ] {
        let once = clean_url(&Url::parse(text).unwrap());
        let twice = clean_url(&Url::parse(&once).unwrap());
        assert_eq!(once, twice);
    }
}

#[test]
fn a_url_without_a_host() {
    let url = Url::parse("mailto:admin@example.com").unwrap();
    assert_eq!(url.host_str(), None);
    assert_eq!(url.scheme(), "mailto");
}

#[test]
fn a_path_is_put_in_the_place_of_the_path() {
    let url = Url::parse("https://gitea.example.com/explore?q=1").unwrap();
    assert_eq!(
        url.with_path("realaravinth"),
        Some("https://gitea.example.com/realaravinth?q=1".to_string())
    );
    assert_eq!(
        url.with_path("some user"),
        Some("https://gitea.example.com/some%20user?q=1".to_string())
    );
    assert_eq!(url.as_str(), "https://gitea.example.com/explore?q=1");
}

#[test]
fn urls_are_compared() {
    let a = Url::parse("https://example.com").unwrap();
    let b = Url::parse("https://example.com/").unwrap();
    let c = Url::parse("https://example.com/x").unwrap();
    assert!(a.same_as(&b));
    assert!(a.same_url(&b));
    assert!(!a.same_as(&c));
    assert!(!a.same_url(&c));
    assert!(a.same_url(&a.clone()));
}

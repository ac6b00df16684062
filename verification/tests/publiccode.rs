use starchart::db::AddRepository;
use starchart::publiccode::{
    Description, IntendedAudience, Legal, Repository, LANGUAGE, PUBLIC_CODE_VERSION,
};
use starchart::weburl::Url;

fn message<'a>(website: Option<&'a str>, tags: Option<Vec<&'a str>>) -> AddRepository<'a> {
    AddRepository {
        html_link: "https://test-gitea.example.com/user1/starchart",
        name: "starchart",
        tags,
        owner: "user1",
        website,
        description: Some("a spider"),
        url: Url::parse("https://test-gitea.example.com").unwrap(),
        import: false,
    }
}

#[test]
fn a_repository_is_described_and_read_back() {
    let msg = message(Some("https://starchart.example.org"), Some(vec!["test", "spider"]));
    let described = Repository::from(&msg).unwrap();
    assert_eq!(described.publiccode_yml_version, PUBLIC_CODE_VERSION);
    assert_eq!(PUBLIC_CODE_VERSION, "0.2");
    assert_eq!(LANGUAGE, "en");
    assert_eq!(described.name, "starchart");
    assert_eq!(described.url.as_str(), "https://test-gitea.example.com/user1/starchart");
    assert_eq!(
        described.landing_url.as_ref().unwrap().as_str(),
        "https://starchart.example.org/"
    );
    assert_eq!(described.is_based_on, None);
    assert_eq!(described.legal.repo_owner, "user1");
    assert_eq!(described.legal.license, None);
    assert_eq!(described.description.len(), 1);
    assert_eq!(described.description[0].0, "en");
    assert!(!described.intended_audience.is_none());

    let back = described.to_add_repository(true).unwrap();
    assert_eq!(back.html_link, msg.html_link);
    assert_eq!(back.name, msg.name);
    assert_eq!(back.owner, msg.owner);
    assert_eq!(back.description, msg.description);
    assert_eq!(back.website, msg.website);
    assert_eq!(back.tags, msg.tags);
    assert!(back.import);
    assert!(!described.to_add_repository(false).unwrap().import);
}

#[test]
fn a_link_that_is_no_url_cannot_be_described() {
    assert!(Repository::from(&message(Some("not a url"), None)).is_err());
    let mut msg = message(None, None);
    msg.html_link = "nonsense";
    assert!(Repository::from(&msg).is_err());
    assert!(Repository::from(&message(None, None)).unwrap().landing_url.is_none());
}

#[test]
fn a_repository_without_an_english_description_is_not_read() {
    let mut described = Repository::from(&message(None, None)).unwrap();
    assert!(described.intended_audience.is_none());
    described.description[0].0 = "de".to_string();
    assert!(described.get_description().is_none());
    assert!(described.to_add_repository(true).is_none());
    described.description.push((
        "en".to_string(),
        Description {
            short_description: None,
            long_description: None,
            documentation: Some("https://docs.example.org".to_string()),
        },
    ));
    described.description.push((
        "en".to_string(),
        Description { short_description: None, long_description: None, documentation: None },
    ));
    let back = described.to_add_repository(true).unwrap();
    assert_eq!(back.website, Some("https://docs.example.org"));
    assert_eq!(back.description, None);
    let _ = Legal { license: None, repo_owner: String::new() };
}

#[test]
fn an_audience_without_scope_says_nothing() {
    assert!(IntendedAudience { scope: None }.is_none());
    assert!(IntendedAudience { scope: Some(vec![]) }.is_none());
    assert!(!IntendedAudience { scope: Some(vec!["science".to_string()]) }.is_none());
}

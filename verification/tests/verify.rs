use starchart::db::Challenge;
use starchart::errors::ServiceError;
use starchart::pages::Pages;
use starchart::store::Database;
use starchart::verify::{
    issue_challenge, judge, verify_challenge, TXTChallenge, Verdict, VALUES_LEN,
};
use starchart::weburl::Url;

pub const BASE_DOMAIN: &str = "https://forge.forgeflux.org";
pub const VALUE: &str = "ifthisvalueisretrievedbyforgefluxstarchartthenthetestshouldpass";
pub const DOMAIN: &str = "developer-starchart.forgeflux.org";

#[test]
fn verify_txt_works() {
    let base_hostname = Url::parse(BASE_DOMAIN).unwrap();

    let key = TXTChallenge::get_challenge_txt_key(DOMAIN, &base_hostname);
    let mut txt_challenge = TXTChallenge {
        value: VALUE.to_string(),
        key: key.clone(),
    };
    assert_eq!(TXTChallenge::get_challenge_txt_key(DOMAIN, &base_hostname), key,);
    assert_eq!(key, "starchart-developer-starchart.forgeflux.org.forge.forgeflux.org");

    // the records that the lookup of the key gives
    let records = vec!["v=spf1 -all".to_string(), VALUE.to_string()];
    assert!(txt_challenge.verify_txt(&records), "TXT Challenge verification test");
    txt_challenge.value = key;
    assert!(!txt_challenge.verify_txt(&records));
    assert!(!txt_challenge.verify_txt(&Vec::new()));
}

#[test]
fn the_value_is_matched_byte_for_byte() {
    let c = TXTChallenge { key: "k".to_string(), value: "Secret".to_string() };
    assert!(!c.verify_txt(&vec!["secret".to_string(), "Secret ".to_string(), " Secret".to_string()]));
    assert!(c.verify_txt(&vec!["secret".to_string(), "Secret".to_string()]));
}

#[test]
fn a_new_challenge_has_a_random_value() {
    let hostname = Url::parse("https://git.example.com/some/path").unwrap();
    assert_eq!(TXTChallenge::get_challenge_txt_key_prefix("a.example"), "starchart-a.example");
    let a = TXTChallenge::new("a.example", &hostname);
    let b = TXTChallenge::new("a.example", &hostname);
    assert_eq!(a.key, "starchart-a.example.git.example.com");
    assert_eq!(a.key, b.key);
    assert_eq!(VALUES_LEN, 30);
    assert_eq!(a.value.chars().count(), VALUES_LEN);
    assert!(a.value.chars().all(|c| c.is_ascii_alphanumeric()));
    assert!(b.value.chars().all(|c| c.is_ascii_alphanumeric()));
    assert_ne!(a.value, b.value);
    let c = TXTChallenge::with_value("a.example", &hostname, "fixed".to_string());
    assert_eq!(c.key, a.key);
    assert_eq!(c.value, "fixed");
}

#[test]
fn a_hostname_is_verified_once() {
    let pages = Pages::new();
    let hostname = Url::parse("https://git.example.com").unwrap();
    let txt = TXTChallenge::with_value("a.example", &hostname, "secret".to_string());
    let mut db = Database::new();
    db.create_dns_challenge(&Challenge {
        key: txt.key.clone(),
        hostname: hostname.as_str().to_string(),
        value: txt.value.clone(),
    })
    .unwrap();

    // no matching record: the challenge stays and is tried again
    match verify_challenge(&mut db, &pages, &txt.key, &vec!["wrong".to_string()]).unwrap() {
        Verdict::Retry { location } => {
            assert_eq!(location, "/verify?hostname=starchart-a.example.git.example.com");
        },
        _ => panic!("a wrong value was taken"),
    }
    assert!(db.dns_challenge_exists(&txt.key).unwrap());
    assert!(matches!(
        verify_challenge(&mut db, &pages, &txt.key, &vec![]).unwrap(),
        Verdict::Retry { .. }
    ));

    // the matching record: verified, the challenge is consumed
    match verify_challenge(&mut db, &pages, &txt.key, &vec!["secret".to_string()]).unwrap() {
        Verdict::Verified { hostname, location } => {
            assert_eq!(hostname, "https://git.example.com/");
            assert_eq!(location, "/explore");
        },
        _ => panic!("the right value was not taken"),
    }
    assert!(!db.dns_challenge_exists(&txt.key).unwrap());

    // a second time there is nothing to verify
    assert!(matches!(
        verify_challenge(&mut db, &pages, &txt.key, &vec!["secret".to_string()]),
        Err(ServiceError::DBError(_))
    ));
}

#[test]
fn add_routes_work() {
    const BASE_DOMAIN: &str = "add_routes_work.example.org";
    let pages = Pages::new();
    let hostname = Url::parse(&format!("https://{BASE_DOMAIN}")).unwrap();
    let mut db = Database::new();

    let challenge = issue_challenge(&mut db, DOMAIN, &hostname).unwrap();
    assert!(db.dns_challenge_exists(&challenge.key).unwrap());
    let location = pages.auth.verify_get(&challenge.key);
    assert_eq!(
        location,
        "/verify?hostname=starchart-developer-starchart.forgeflux.org.add_routes_work.example.org"
    );

    // replay config
    let replayed = issue_challenge(&mut db, DOMAIN, &hostname).unwrap();
    assert!(db.dns_challenge_exists(&challenge.key).unwrap());
    assert_eq!(replayed.key, challenge.key);
    assert_eq!(replayed.value, challenge.value);
    assert_eq!(pages.auth.verify_get(&replayed.key), location);
}

#[test]
fn a_challenge_is_issued_once_and_stands() {
    let pages = Pages::new();
    let hostname = Url::parse("https://git.example.com/some/path").unwrap();
    let mut db = Database::new();
    let first = issue_challenge(&mut db, "a.example", &hostname).unwrap();
    assert_eq!(first.key, "starchart-a.example.git.example.com");
    assert_eq!(first.hostname, "https://git.example.com/some/path");
    assert_eq!(first.value.len(), VALUES_LEN);
    assert!(first.value.chars().all(|c| c.is_ascii_alphanumeric()));
    assert!(db.dns_challenge_exists(&first.key).unwrap());
    // asking again does not change the value that is to be published
    let again = issue_challenge(&mut db, "a.example", &hostname).unwrap();
    assert_eq!(again.value, first.value);
    assert_eq!(again.key, first.key);

    assert!(matches!(judge(&first, &pages, &vec![]), Verdict::Retry { .. }));
    match judge(&first, &pages, &vec![first.value.clone()]) {
        Verdict::Verified { hostname, location } => {
            assert_eq!(hostname, "https://git.example.com/some/path");
            assert_eq!(location, "/explore");
        },
        _ => panic!("the right value was not taken"),
    }
    assert!(matches!(
        verify_challenge(&mut db, &pages, &first.key, &vec![first.value.clone()]).unwrap(),
        Verdict::Verified { .. }
    ));
    // once consumed, a new challenge with a new value is issued
    let next = issue_challenge(&mut db, "a.example", &hostname).unwrap();
    assert_ne!(next.value, first.value);
}

use starchart::counter::{Count, Counter};
use starchart::db::{AddRepository, AddUser, CreateForge, ForgeImplementation, Repository};
use starchart::errors::ServiceError;
use starchart::master::Master;
use starchart::search::{
    dispatch, merge_results, normalize_query, search_repository, SEARCH_CEILING, SEARCH_DURATION,
};
use starchart::store::Database;
use starchart::weburl::Url;

const URL: &str = "https://search-works-test.example.com";
const HTML_PROFILE_URL: &str = "https://search-works-test.example.com/user1";
const USERNAME: &str = "user1";
const REPO_NAME: &str = "searchsasdf2";
const HTML_REPO_URL: &str = "https://search-works-test.example.com/user1/searchsasdf2";
const TAGS: [&str; 3] = ["test", "starchart", "spider"];

fn store() -> Database {
    let url = Url::parse(URL).unwrap();
    let mut db = Database::new();
    db.create_forge_instance(&CreateForge {
        url: url.clone(),
        forge_type: ForgeImplementation::Gitea,
        starchart_url: None,
    })
    .unwrap();
    db.add_user(&AddUser {
        url: url.clone(),
        html_link: HTML_PROFILE_URL,
        profile_photo: None,
        username: USERNAME,
        import: false,
    })
    .unwrap();
    db.create_repository(&AddRepository {
        html_link: HTML_REPO_URL,
        name: REPO_NAME,
        tags: Some(TAGS.into()),
        owner: USERNAME,
        website: None,
        description: None,
        url,
        import: false,
    })
    .unwrap();
    db
}

fn repository(name: &str) -> Repository {
    Repository {
        html_url: format!("https://x.example.com/u/{name}"),
        tags: None,
        url: "https://x.example.com/".to_string(),
        name: name.to_string(),
        username: "u".to_string(),
        description: None,
        website: None,
        import: false,
    }
}

#[test]
fn search_works() {
    let db = store();
    let mut master = Master::new(45);
    let query = REPO_NAME[0..REPO_NAME.len() - 4].to_string();
    let plan = search_repository(&db, &mut master, &query, 0).unwrap();
    assert_eq!(plan.query, "*searchsa*");
    assert!(!plan.local.is_empty());
    assert_eq!(plan.local.first().as_ref().unwrap().name, REPO_NAME);
    assert!(plan.targets.is_empty());

    let mini_index = db.export_mini_index().unwrap();
    assert!(!mini_index.is_empty());
    assert!(mini_index.contains(USERNAME));
}

#[test]
fn a_query_becomes_a_pattern() {
    assert_eq!(normalize_query("star"), "*star*");
    assert_eq!(normalize_query("star*"), "star*");
    assert_eq!(normalize_query("*"), "*");
    assert_eq!(normalize_query(""), "**");
    assert_eq!(SEARCH_CEILING, 50);
    assert_eq!(SEARCH_DURATION, 54);
}

#[test]
fn peers_whose_forges_are_imported_are_not_asked() {
    let mut db = store();
    let imported = Url::parse("https://imported.example.org").unwrap();
    let remote = Url::parse("https://remote.example.org").unwrap();
    db.import_mini_index(&imported, "searchsasdf2 other").unwrap();
    db.import_mini_index(&remote, "searchsasdf2").unwrap();
    db.create_forge_instance(&CreateForge {
        url: Url::parse("https://forge.imported.example.org").unwrap(),
        forge_type: ForgeImplementation::Gitea,
        starchart_url: Some(imported.origin()),
    })
    .unwrap();
    let mut master = Master::new(45);
    let plan = search_repository(&db, &mut master, "searchsa", 100).unwrap();
    assert_eq!(plan.targets, vec!["https://remote.example.org/".to_string()]);
    assert_eq!(plan.local.len(), 1);
    // no search was counted for the imported peer
    assert_eq!(master.get_count("https://imported.example.org/"), None);
    assert_eq!(master.get_count("https://remote.example.org/"), Some(1));
}

#[test]
fn a_peer_over_its_budget_is_not_asked() {
    let mut master = Master::new(45);
    let peers = vec!["https://a.example.org/".to_string(), "https://b.example.org/".to_string()];
    let imported = vec![false, false];
    master.add_site(
        Counter::from(Count { search_threshold: 49, duration: SEARCH_DURATION }),
        peers[0].clone(),
    );
    assert_eq!(dispatch(&mut master, &peers, &imported, 10), peers);
    assert_eq!(
        dispatch(&mut master, &peers, &imported, 10),
        vec!["https://b.example.org/".to_string()]
    );
    assert_eq!(master.get_count(&peers[0]), Some(51));
    assert_eq!(master.get_count(&peers[1]), Some(2));
    assert!(dispatch(&mut master, &peers, &vec![true, true], 10).is_empty());
    assert_eq!(master.get_count(&peers[1]), Some(2));
    // the searches decay, and the peer is asked again
    master.clean_up(10 + SEARCH_DURATION);
    assert_eq!(master.get_count(&peers[0]), Some(49));
    assert_eq!(dispatch(&mut master, &peers, &imported, 100), peers);
}

#[test]
fn searches_that_are_due_decay_when_a_search_is_counted() {
    let mut master = Master::new(45);
    let peers = vec!["https://a.example.org/".to_string()];
    let imported = vec![false];
    assert_eq!(dispatch(&mut master, &peers, &imported, 0), peers);
    assert_eq!(dispatch(&mut master, &peers, &imported, 1), peers);
    assert_eq!(master.get_count(&peers[0]), Some(2));
    // nothing sweeps the registry in between
    assert_eq!(dispatch(&mut master, &peers, &imported, SEARCH_DURATION), peers);
    assert_eq!(master.get_count(&peers[0]), Some(2));
    assert_eq!(dispatch(&mut master, &peers, &imported, 1000), peers);
    assert_eq!(master.get_count(&peers[0]), Some(1));
}

#[test]
fn a_search_over_a_store_without_peers_succeeds() {
    let db = Database::new();
    let mut master = Master::new(45);
    let plan = search_repository(&db, &mut master, "anything", 7).unwrap();
    assert_eq!(plan.query, "*anything*");
    assert!(plan.local.is_empty());
    assert!(plan.targets.is_empty());
}

#[test]
fn a_peer_whose_mini_index_does_not_match_is_not_asked() {
    let mut db = store();
    db.import_mini_index(&Url::parse("https://remote.example.org").unwrap(), "x").unwrap();
    let mut master = Master::new(45);
    let plan = search_repository(&db, &mut master, "zzz", 0).unwrap();
    assert!(plan.targets.is_empty());
    assert!(plan.local.is_empty());
    assert_eq!(master.get_count("https://remote.example.org/"), None);
    assert!(matches!(ServiceError::NotAUrl.status_code(), 400));
}

#[test]
fn results_are_put_together_without_taking_any_out() {
    let remote = vec![
        vec![repository("a"), repository("b")],
        vec![],
        vec![repository("a")],
    ];
    let local = vec![repository("c"), repository("a")];
    let names: Vec<String> =
        merge_results(remote, local).into_iter().map(|r| r.name).collect();
    assert_eq!(names, vec!["a", "b", "a", "c", "a"]);
    assert!(merge_results(vec![], vec![]).is_empty());
}

use starchart::db::{Forge, ForgeImplementation};
use starchart::federate::ExportTree;
use starchart::forge::{CrawlResp, Keyed, Repository, User};
use starchart::memory::{crawl, look_up_repos, look_up_users, reconcile_page};
use starchart::spider::{
    plan, plan_forge, Action, Crawl, Crawler, Event, Job, Known, Order, Phase, Signal, Write,
};
use starchart::store::Database;
use starchart::weburl::Url;

pub const GITEA_HOST: &str = "http://localhost:8080";
pub const GITEA_USERNAME: &str = "bot";
pub const NET_REPOSITORIES: u64 = 100;
pub const PER_CRAWL: u64 = 10;

fn user(url: &Url, name: &str) -> User {
    User {
        url: url.clone(),
        username: name.to_string(),
        html_link: url.with_path(name).unwrap(),
        profile_photo: None,
    }
}

fn repo(url: &Url, owner: &str, name: &str) -> Repository {
    Repository {
        html_link: url.with_path(&format!("{owner}/{name}")).unwrap(),
        tags: Some(vec!["spider".to_string()]),
        url: url.clone(),
        name: name.to_string(),
        owner: owner.to_string(),
        description: None,
        website: None,
    }
}

fn mock_pages(url: &Url) -> Vec<CrawlResp> {
    let mut pages = Vec::new();
    for p in 0..(NET_REPOSITORIES / PER_CRAWL) {
        let mut repos = Vec::new();
        for i in 0..PER_CRAWL {
            repos.push(repo(url, GITEA_USERNAME, &format!("repository_{}", p * PER_CRAWL + i)));
        }
        pages.push(CrawlResp {
            repos,
            tags: vec!["spider".to_string()],
            users: vec![user(url, GITEA_USERNAME)],
        });
    }
    pages
}

#[test]
fn crawl_gitea() {
    let url = Url::parse(GITEA_HOST).unwrap();
    let mut db = Database::new();
    let mut federate = ExportTree::new("/tmp/starchart".to_string());
    let report = crawl(
        &url,
        ForgeImplementation::Gitea,
        mock_pages(&url),
        PER_CRAWL,
        0,
        &mut db,
        &mut federate,
    )
    .unwrap();
    assert_eq!(report.pages, 10);
    assert_eq!(report.fetches, 11);
    assert!(db.forge_exists(&url).unwrap());
    assert!(db.user_exists(GITEA_USERNAME, Some(&url)).unwrap());
    assert!(db.user_exists(GITEA_USERNAME, None).unwrap());
    for i in 0..100 {
        let repo = format!("repository_{i}");
        assert!(db.repository_exists(&repo, GITEA_USERNAME, &url).unwrap());
        assert!(federate.repository_exists(&repo, GITEA_USERNAME, &url));
    }
    assert!(db.forge_exists(&url).unwrap());
    assert_eq!(db.get_all_forges(true, 0, 1000).unwrap().len(), 1);
    assert_eq!(db.get_all_repositories(0, 1000).unwrap().len(), 100);
    assert!(federate.user_exists(GITEA_USERNAME, &url));
    assert!(!federate.forge_exists(&url));
}

#[test]
fn crawling_again_creates_nothing() {
    let url = Url::parse(GITEA_HOST).unwrap();
    let mut db = Database::new();
    let mut federate = ExportTree::new("/tmp/starchart".to_string());
    let first = crawl(&url, ForgeImplementation::Gitea, mock_pages(&url), 10, 0, &mut db, &mut federate)
        .unwrap();
    let repos = db.get_all_repositories(0, 1000).unwrap().len();
    let index = db.export_mini_index().unwrap();
    let second = crawl(&url, ForgeImplementation::Gitea, mock_pages(&url), 10, 0, &mut db, &mut federate)
        .unwrap();
    assert_eq!(first, second);
    assert_eq!(db.get_all_repositories(0, 1000).unwrap().len(), repos);
    assert_eq!(db.get_all_forges(true, 0, 1000).unwrap().len(), 1);
    assert_eq!(db.export_mini_index().unwrap(), index);
    assert!(db.get_user("bot", &url).is_ok());
    // the second crawl mirrors the forge, which the store knew by then
    assert!(federate.forge_exists(&url));
}

#[test]
fn an_empty_forge_is_asked_once() {
    let url = Url::parse(GITEA_HOST).unwrap();
    let mut db = Database::new();
    let mut federate = ExportTree::new("base".to_string());
    let report =
        crawl(&url, ForgeImplementation::Gitea, Vec::new(), 10, 0, &mut db, &mut federate).unwrap();
    assert_eq!(report.pages, 0);
    assert_eq!(report.fetches, 1);
    assert!(db.forge_exists(&url).unwrap());
    assert!(db.get_all_repositories(0, 10).unwrap().is_empty());
}

#[test]
fn a_page_without_repositories_ends_the_crawl() {
    let url = Url::parse(GITEA_HOST).unwrap();
    let mut pages = mock_pages(&url);
    pages[3].repos.clear();
    let mut db = Database::new();
    let mut federate = ExportTree::new("base".to_string());
    let report =
        crawl(&url, ForgeImplementation::Gitea, pages, 10, 0, &mut db, &mut federate).unwrap();
    assert_eq!(report.pages, 3);
    assert_eq!(report.fetches, 4);
    assert_eq!(db.get_all_repositories(0, 1000).unwrap().len(), 30);
    assert!(!db.repository_exists("repository_30", GITEA_USERNAME, &url).unwrap());
}

#[test]
fn a_page_of_another_forge_fails_the_crawl() {
    let url = Url::parse(GITEA_HOST).unwrap();
    let other = Url::parse("https://other.example.com").unwrap();
    let mut pages = mock_pages(&url);
    pages[1].repos.push(repo(&other, GITEA_USERNAME, "stray"));
    let mut db = Database::new();
    let mut federate = ExportTree::new("base".to_string());
    assert!(crawl(&url, ForgeImplementation::Gitea, pages, 10, 0, &mut db, &mut federate).is_err());
    assert_eq!(db.get_all_repositories(0, 1000).unwrap().len(), 10);
    let no_host = Url::parse("mailto:admin@example.com").unwrap();
    assert!(crawl(&no_host, ForgeImplementation::Gitea, Vec::new(), 10, 0, &mut db, &mut federate)
        .is_err());
}

#[test]
fn a_record_is_written_where_it_is_missing() {
    let here = Known { store: true, export: true };
    let store_only = Known { store: true, export: false };
    let export_only = Known { store: false, export: true };
    let nowhere = Known { store: false, export: false };
    assert_eq!(plan_forge(nowhere), Write { store: true, export: false });
    assert_eq!(plan_forge(export_only), Write { store: true, export: false });
    assert_eq!(plan_forge(store_only), Write { store: false, export: true });
    assert_eq!(plan_forge(here), Write { store: false, export: false });

    let url = Url::parse(GITEA_HOST).unwrap();
    let repos = vec![
        repo(&url, "a", "one"),
        repo(&url, "a", "two"),
        repo(&url, "a", "one"),
        repo(&url, "b", "one"),
        repo(&url, "b", "two"),
    ];
    let known = vec![nowhere, store_only, nowhere, export_only, here];
    assert_eq!(
        plan(&repos, &known),
        vec![
            Write { store: true, export: true },
            Write { store: false, export: true },
            Write { store: false, export: false },
            Write { store: true, export: true },
            Write { store: false, export: false },
        ]
    );
    assert!(repos[0].same_record(&repos[2]));
    assert!(!repos[0].same_record(&repos[3]));
    assert!(user(&url, "a").same_record(&user(&url, "a")));
    assert!(!user(&url, "a").same_record(&user(&url, "b")));
}

#[test]
fn the_crawl_goes_through_its_phases() {
    let url = Url::parse(GITEA_HOST).unwrap();
    let mut c = Crawl::new(url.clone(), ForgeImplementation::Gitea, 10, 3);
    assert_eq!(c.phase(), Phase::Idle);
    assert!(matches!(c.advance(Event::Start), Action::Probe));
    assert_eq!(c.phase(), Phase::Probing);
    match c.advance(Event::ForgeKnown(Known { store: false, export: false })) {
        Action::WriteForge(w) => assert_eq!(w, Write { store: true, export: false }),
        _ => panic!("the forge was not written"),
    }
    let msg = c.forge_message();
    assert_eq!(msg.url.as_str(), url.as_str());
    assert_eq!(msg.starchart_url, None);
    match c.advance(Event::Written) {
        Action::Fetch { limit, page, rate_limit } => {
            assert_eq!((limit, page, rate_limit), (10, 1, 3));
        },
        _ => panic!("no page was asked for"),
    }
    let page = CrawlResp {
        repos: vec![repo(&url, "a", "one")],
        tags: vec![],
        users: vec![user(&url, "a")],
    };
    match c.advance(Event::Page {
        resp: page,
        users: vec![Known { store: false, export: false }],
        repos: vec![Known { store: false, export: false }],
    }) {
        Action::WritePage { resp, users, repos } => {
            assert_eq!(resp.repos.len(), 1);
            assert_eq!(users, vec![Write { store: true, export: true }]);
            assert_eq!(repos, vec![Write { store: true, export: true }]);
        },
        _ => panic!("the page was not written"),
    }
    assert_eq!(c.phase(), Phase::Writing);
    match c.advance(Event::Written) {
        Action::Fetch { page, .. } => assert_eq!(page, 2),
        _ => panic!("no page was asked for"),
    }
    assert_eq!(c.page(), 2);
    match c.advance(Event::Page { resp: CrawlResp::empty(), users: vec![], repos: vec![] }) {
        Action::Finished { pages } => assert_eq!(pages, 1),
        _ => panic!("the crawl did not end"),
    }
    assert!(c.is_over());
    assert!(matches!(c.advance(Event::Start), Action::Finished { pages: 1 }));
    assert_eq!(c.phase(), Phase::Done);
}

#[test]
fn a_failure_ends_the_crawl_for_this_cycle() {
    let url = Url::parse(GITEA_HOST).unwrap();
    let mut c = Crawl::new(url.clone(), ForgeImplementation::Gitea, 10, 0);
    c.advance(Event::Start);
    match c.advance(Event::ForgeKnown(Known { store: true, export: true })) {
        Action::Fetch { page, .. } => assert_eq!(page, 1),
        _ => panic!("no page was asked for"),
    }
    assert!(matches!(c.advance(Event::Failed), Action::Aborted));
    assert_eq!(c.phase(), Phase::Aborted);
    assert!(matches!(c.advance(Event::Start), Action::Aborted));
    assert!(matches!(
        c.advance(Event::Page { resp: CrawlResp::empty(), users: vec![], repos: vec![] }),
        Action::Aborted
    ));

    let mut d = Crawl::new(url.clone(), ForgeImplementation::Gitea, 10, 0);
    assert!(matches!(d.advance(Event::Written), Action::Aborted));

    let mut e = Crawl::new(url.clone(), ForgeImplementation::Gitea, 10, 0);
    e.advance(Event::Start);
    e.advance(Event::ForgeKnown(Known { store: true, export: true }));
    let page = CrawlResp { repos: vec![repo(&url, "a", "one")], tags: vec![], users: vec![] };
    assert!(matches!(
        e.advance(Event::Page { resp: page, users: vec![], repos: vec![] }),
        Action::Aborted
    ));
}

#[test]
fn a_page_is_reconciled_with_both_stores() {
    let url = Url::parse(GITEA_HOST).unwrap();
    let mut db = Database::new();
    let mut federate = ExportTree::new("base".to_string());
    let page = CrawlResp {
        repos: vec![repo(&url, "a", "one"), repo(&url, "a", "two")],
        tags: vec![],
        users: vec![user(&url, "a")],
    };
    assert_eq!(
        look_up_users(&page.users, &db, &federate),
        Some(vec![Known { store: false, export: false }])
    );
    assert_eq!(look_up_repos(&page.repos, &db, &federate).unwrap().len(), 2);
    let mut c = Crawl::new(url.clone(), ForgeImplementation::Gitea, 10, 0);
    c.advance(Event::Start);
    c.advance(Event::ForgeKnown(Known { store: false, export: false }));
    db.create_forge_instance(&c.forge_message()).unwrap();
    c.advance(Event::Written);
    assert_eq!(reconcile_page(&mut c, page, &url, &mut db, &mut federate).unwrap(), false);
    assert_eq!(c.page(), 2);
    assert!(db.repository_exists("two", "a", &url).unwrap());
    assert!(federate.repository_exists("two", "a", &url));
    assert_eq!(
        reconcile_page(&mut c, CrawlResp::empty(), &url, &mut db, &mut federate).unwrap(),
        true
    );
    assert!(c.is_over());
}

fn forge(url: &str, imported: bool) -> Forge {
    Forge {
        url: url.to_string(),
        forge_type: ForgeImplementation::Gitea,
        last_crawl_on: None,
        starchart_url: if imported { Some("https://peer.example.com/".to_string()) } else { None },
        imported,
    }
}

#[test]
fn the_scheduler_goes_through_the_forges_page_by_page() {
    let mut s = Crawler::new(2, 30);
    assert!(s.is_running());
    match s.advance(Signal::Start, false) {
        Order::ListForges { offset, limit } => assert_eq!((offset, limit), (0, 2)),
        _ => panic!("no page of forges was asked for"),
    }
    let page = vec![forge("https://a.example.com/", false), forge("https://b.example.com/", false)];
    match s.advance(Signal::Forges(page), false) {
        Order::Crawl { url } => assert_eq!(url, "https://a.example.com/"),
        _ => panic!("no forge was crawled"),
    }
    match s.advance(Signal::Crawled, false) {
        Order::Crawl { url } => assert_eq!(url, "https://b.example.com/"),
        _ => panic!("no forge was crawled"),
    }
    match s.advance(Signal::Crawled, false) {
        Order::ListForges { offset, limit } => assert_eq!((offset, limit), (2, 2)),
        _ => panic!("no page of forges was asked for"),
    }
    assert!(matches!(s.advance(Signal::Forges(vec![]), false), Order::Snapshot));
    match s.advance(Signal::Snapshotted, false) {
        Order::Sleep { seconds } => assert_eq!(seconds, 30),
        _ => panic!("the scheduler did not wait"),
    }
    match s.advance(Signal::Slept, false) {
        Order::ListForges { offset, limit } => assert_eq!((offset, limit), (0, 2)),
        _ => panic!("the cycle did not start over"),
    }
}

#[test]
fn the_scheduler_passes_over_imported_forges() {
    let mut s = Crawler::new(3, 30);
    s.advance(Signal::Start, false);
    let page = vec![
        forge("https://a.example.com/", true),
        forge("https://b.example.com/", false),
        forge("https://c.example.com/", true),
    ];
    match s.advance(Signal::Forges(page), false) {
        Order::Crawl { url } => assert_eq!(url, "https://b.example.com/"),
        _ => panic!("no forge was crawled"),
    }
    match s.advance(Signal::Crawled, false) {
        Order::ListForges { offset, .. } => assert_eq!(offset, 3),
        _ => panic!("no page of forges was asked for"),
    }
    let page = vec![forge("https://d.example.com/", true)];
    match s.advance(Signal::Forges(page), false) {
        Order::ListForges { offset, .. } => assert_eq!(offset, 6),
        _ => panic!("no page of forges was asked for"),
    }
}

#[test]
fn the_scheduler_stops_when_told_and_starts_no_crawl() {
    let mut s = Crawler::new(2, 30);
    s.advance(Signal::Start, false);
    let page = vec![forge("https://a.example.com/", false), forge("https://b.example.com/", false)];
    assert!(matches!(s.advance(Signal::Forges(page), false), Order::Crawl { .. }));
    assert!(matches!(s.advance(Signal::Crawled, true), Order::Stop));
    assert!(!s.is_running());
    assert!(matches!(s.advance(Signal::Crawled, false), Order::Stop));
    assert!(matches!(s.advance(Signal::Start, false), Order::Stop));

    let mut t = Crawler::new(2, 30);
    assert!(matches!(t.advance(Signal::Start, true), Order::Stop));

    let mut u = Crawler::new(2, 30);
    assert!(matches!(u.advance(Signal::Crawled, false), Order::Stop));
    let _ = Job::Idle;
}

#[test]
fn the_scheduler_archives_when_the_offset_cannot_be_counted() {
    let mut s = Crawler::new(u32::MAX, 1);
    s.advance(Signal::Start, false);
    let page = vec![forge("https://a.example.com/", true)];
    assert!(matches!(s.advance(Signal::Forges(page), false), Order::ListForges { .. }));
    let page = vec![forge("https://a.example.com/", true)];
    assert!(matches!(s.advance(Signal::Forges(page), false), Order::Snapshot));
}

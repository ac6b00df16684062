use starchart::db::{Forge, ForgeImplementation, Starchart};
use starchart::introduce::{
    listed, parse_peer, plan_registers, plan_visits, select_forges, Bootstrap, Reply, Step,
};
use starchart::memory::{introduce, look_up_forges};
use starchart::store::Database;
use starchart::weburl::Url;

const ME: &str = "https://me.example.org/";
const NODE: &str = "https://node.example.org/";

fn forge(url: &str) -> Forge {
    Forge {
        url: url.to_string(),
        forge_type: ForgeImplementation::Gitea,
        last_crawl_on: None,
        starchart_url: None,
        imported: false,
    }
}

fn peer(url: &str) -> Starchart {
    Starchart { instance_url: url.to_string() }
}

fn bootstrap() -> Bootstrap {
    Bootstrap::new(
        &Url::parse(ME).unwrap(),
        &vec![Url::parse("https://node.example.org").unwrap(), Url::parse(ME).unwrap()],
        50,
        600,
    )
}

#[test]
fn a_sweep_begins_with_the_configured_peers_but_not_with_itself() {
    let b = bootstrap();
    assert!(b.is_running());
    match b.current() {
        Step::ListIntroductions { node, origin, page } => {
            assert_eq!(node, NODE);
            assert_eq!(origin, NODE);
            assert_eq!(page, 1);
        },
        _ => panic!("the sweep did not begin with a visit"),
    }
}

#[test]
fn introductions_works() {
    let mut b = bootstrap();
    let list = vec![peer("https://a.example.org"), peer(ME), peer("not a url"), peer(NODE)];
    // the page of peers is followed by the introduction of this instance
    match b.advance(Reply::Introductions(list), false) {
        Step::Introduce { node, instance_url } => {
            assert_eq!(node, NODE);
            assert_eq!(instance_url, ME);
        },
        _ => panic!("this instance was not introduced"),
    }
    // a failed introduction does not stop the sweep
    match b.advance(Reply::Failed, false) {
        Step::Register { peer, .. } => assert_eq!(peer, NODE),
        _ => panic!("the node was not registered"),
    }
    match b.advance(Reply::Done, false) {
        Step::ListForges { peer, origin, page } => {
            assert_eq!(peer, NODE);
            assert_eq!(origin, NODE);
            assert_eq!(page, 1);
        },
        _ => panic!("the forges of the node were not asked for"),
    }
    let forges = vec![forge("https://forge.example.org"), forge("https://known.example.org"), forge("x")];
    match b.advance(Reply::Forges { forges, known: vec![false, true, false] }, false) {
        Step::ImportForges { starchart_url, forges } => {
            assert_eq!(starchart_url, NODE);
            assert_eq!(forges.len(), 1);
            assert_eq!(forges[0].url, "https://forge.example.org");
        },
        _ => panic!("the forges of the node were not imported"),
    }
    match b.advance(Reply::Done, false) {
        Step::ListForges { page, .. } => assert_eq!(page, 2),
        _ => panic!("the next page of forges was not asked for"),
    }
    match b.advance(Reply::Forges { forges: vec![], known: vec![] }, false) {
        Step::GetMiniIndex { peer } => assert_eq!(peer, NODE),
        _ => panic!("the mini-index of the node was not asked for"),
    }
    match b.advance(Reply::MiniIndex("batman superman".to_string()), false) {
        Step::ReplaceMiniIndex { peer, mini_index } => {
            assert_eq!(peer, NODE);
            assert_eq!(mini_index, "batman superman");
        },
        _ => panic!("the mini-index of the node was not replaced"),
    }
    // the peers of the page: this instance and what is no URL are passed over
    match b.advance(Reply::Done, false) {
        Step::Register { peer, origin } => {
            assert_eq!(peer, "https://a.example.org/");
            assert_eq!(origin, "https://a.example.org/");
        },
        _ => panic!("the listed peer was not registered"),
    }
    match b.advance(Reply::Done, false) {
        Step::ListForges { peer, .. } => assert_eq!(peer, "https://a.example.org/"),
        _ => panic!("the forges of the listed peer were not asked for"),
    }
    // a failure gives up the forges of that peer, not its mini-index
    match b.advance(Reply::Failed, false) {
        Step::GetMiniIndex { peer } => assert_eq!(peer, "https://a.example.org/"),
        _ => panic!("the mini-index of the listed peer was not asked for"),
    }
    // a failure gives up the mini-index; the node, listed by itself, is next
    match b.advance(Reply::Failed, false) {
        Step::Register { peer, .. } => assert_eq!(peer, NODE),
        _ => panic!("the node was not registered again"),
    }
    // its forges were asked for in this sweep: its mini-index alone follows
    match b.advance(Reply::Done, false) {
        Step::GetMiniIndex { peer } => assert_eq!(peer, NODE),
        _ => panic!("the mini-index was not asked for"),
    }
    match b.advance(Reply::Failed, false) {
        Step::ListIntroductions { node, page, .. } => {
            assert_eq!(node, NODE);
            assert_eq!(page, 2);
        },
        _ => panic!("the next page of peers was not asked for"),
    }
    // an empty page ends the visit; this instance is introduced once more
    assert!(matches!(b.advance(Reply::Introductions(vec![]), false), Step::Introduce { .. }));
    match b.advance(Reply::Done, false) {
        Step::ListPeers { offset, limit } => assert_eq!((offset, limit), (0, 50)),
        _ => panic!("the known peers were not read"),
    }
    // a short page of known peers: each is visited, then the sweep is over
    match b.advance(Reply::Peers(vec![peer(ME), peer("https://a.example.org/")]), false) {
        Step::ListIntroductions { node, page, .. } => {
            assert_eq!(node, NODE);
            assert_eq!(page, 1);
        },
        _ => panic!("the configured peer was not visited"),
    }
    match b.advance(Reply::Failed, false) {
        Step::ListIntroductions { node, .. } => assert_eq!(node, "https://a.example.org/"),
        _ => panic!("the known peer was not visited"),
    }
    match b.advance(Reply::Failed, false) {
        Step::Sleep { seconds } => assert_eq!(seconds, 600),
        _ => panic!("the introducer did not wait"),
    }
    match b.advance(Reply::Done, false) {
        Step::ListIntroductions { node, page, .. } => {
            assert_eq!(node, NODE);
            assert_eq!(page, 1);
        },
        _ => panic!("the next sweep did not begin"),
    }
}

#[test]
fn a_full_page_of_known_peers_is_followed_by_the_next() {
    let mut b = Bootstrap::new(&Url::parse(ME).unwrap(), &vec![], 2, 1);
    match b.current() {
        Step::ListPeers { offset, limit } => assert_eq!((offset, limit), (0, 2)),
        _ => panic!("the known peers were not read"),
    }
    let page = vec![peer(ME), peer("nonsense")];
    match b.advance(Reply::Peers(page), false) {
        Step::ListPeers { offset, limit } => assert_eq!((offset, limit), (2, 2)),
        _ => panic!("the next page of known peers was not read"),
    }
    assert!(matches!(b.advance(Reply::Peers(vec![peer(ME)]), false), Step::Sleep { seconds: 1 }));
}

#[test]
fn the_introducer_stops_when_told() {
    let mut b = bootstrap();
    assert!(matches!(b.advance(Reply::Introductions(vec![peer(NODE)]), true), Step::Stop));
    assert!(!b.is_running());
    assert!(matches!(b.current(), Step::Stop));
    assert!(matches!(b.advance(Reply::Done, false), Step::Stop));
}

#[test]
fn peers_are_planned() {
    assert_eq!(
        parse_peer("https://a.example.org/x?y"),
        Some(("https://a.example.org/x?y".to_string(), "https://a.example.org/".to_string()))
    );
    assert_eq!(parse_peer("nonsense"), None);
    let texts = vec![ME.to_string(), "https://me.example.org".to_string(), "https://b.example.org".to_string()];
    let visits = plan_visits(&texts, ME);
    assert_eq!(visits.len(), 1);
    let registers = plan_registers(&texts, ME);
    assert_eq!(registers.len(), 1);
    assert!(matches!(&registers[0], Step::Register { peer, .. } if peer == "https://b.example.org/"));
    assert!(listed(&texts, ME));
    assert!(!listed(&texts, NODE));
    let forges = vec![forge("https://a.example.org"), forge("b"), forge("https://c.example.org")];
    let chosen = select_forges(&forges, &vec![false, false, false]);
    assert_eq!(chosen.len(), 2);
    assert_eq!(chosen[0].url, "https://a.example.org");
    assert_eq!(chosen[1].url, "https://c.example.org");
    assert!(select_forges(&forges, &vec![true, false, true]).is_empty());
}

#[test]
fn a_peer_introduced_twice_leaves_no_duplicates_and_no_stale_words() {
    let mut db = Database::new();
    let p = Url::parse(NODE).unwrap();
    let local = starchart::db::CreateForge {
        url: Url::parse("https://local.example.org").unwrap(),
        forge_type: ForgeImplementation::Gitea,
        starchart_url: None,
    };
    db.create_forge_instance(&local).unwrap();
    let forges = vec![
        forge("https://one.example.org/"),
        forge("https://two.example.org/"),
        forge("https://local.example.org/"),
        forge("https://one.example.org/some/path"),
        forge("nonsense"),
    ];
    assert_eq!(look_up_forges(&forges, &db), vec![false, false, true, false, false]);
    introduce(&mut db, &p, &forges, "batman superman").unwrap();
    let after_first: Vec<_> = db.get_all_forges(true, 0, 100).unwrap().into_iter().map(|f| (f.url, f.imported, f.starchart_url)).collect();
    assert_eq!(
        after_first,
        vec![
            ("https://local.example.org/".to_string(), false, None),
            ("https://one.example.org/".to_string(), true, Some(NODE.to_string())),
            ("https://two.example.org/".to_string(), true, Some(NODE.to_string())),
        ]
    );
    assert_eq!(db.search_mini_index("superman").unwrap(), vec![NODE.to_string()]);
    assert!(db.is_starchart_imported(&p).unwrap());

    introduce(&mut db, &p, &forges, "aquaman").unwrap();
    let after_second: Vec<_> = db.get_all_forges(true, 0, 100).unwrap().into_iter().map(|f| (f.url, f.imported, f.starchart_url)).collect();
    assert_eq!(after_second, after_first);
    assert!(db.search_mini_index("superman").unwrap().is_empty());
    assert!(db.search_mini_index("batman").unwrap().is_empty());
    assert_eq!(db.search_mini_index("aquaman").unwrap(), vec![NODE.to_string()]);
    assert_eq!(db.get_all_introduced_starchart_instances(0, 100).unwrap().len(), 1);
    // the forges that were crawled here are the only local ones
    assert_eq!(db.get_all_forges(false, 0, 100).unwrap().len(), 1);
}

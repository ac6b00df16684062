use starchart::db::{
    AddRepository, AddUser, Challenge, CreateForge, DBError, ForgeImplementation,
};
use starchart::pages::{OptionalPage, Page};
use starchart::store::{core_of, page_bounds, Database};
use starchart::weburl::{clean_url, Url};

const URL: &str = "https://test-gitea.example.com";
const HTML_PROFILE_URL: &str = "https://test-gitea.example.com/user1";
const HTML_PROFILE_PHOTO_URL_2: &str = "https://test-gitea.example.com/profile-photo/user2";
const USERNAME: &str = "user1";
const USERNAME2: &str = "user2";
const REPO_NAME: &str = "starchart";
const HTML_REPO_URL: &str = "https://test-gitea.example.com/user1/starchart";
const TAGS: [&str; 3] = ["test", "starchart", "spider"];

fn forge_msg(url: &str) -> CreateForge<'static> {
    CreateForge {
        url: Url::parse(url).unwrap(),
        forge_type: ForgeImplementation::Gitea,
        starchart_url: None,
    }
}

#[test]
fn tests_everything_works() {
    let url = Url::parse(URL).unwrap();
    let mut db = Database::new();
    assert!(db.ping());

    let create_forge_msg = forge_msg(URL);
    let add_user_msg = AddUser {
        url: url.clone(),
        html_link: HTML_PROFILE_URL,
        profile_photo: None,
        username: USERNAME,
        import: false,
    };
    let add_user_msg2 = AddUser {
        url: url.clone(),
        html_link: HTML_PROFILE_PHOTO_URL_2,
        profile_photo: Some(HTML_PROFILE_PHOTO_URL_2),
        username: USERNAME2,
        import: false,
    };
    let add_repo_msg = AddRepository {
        html_link: HTML_REPO_URL,
        name: REPO_NAME,
        tags: Some(TAGS.into()),
        owner: USERNAME,
        website: Some("https://starcahrt-sqlite-test.example.org"),
        description: Some("starchart sqlite test repo sescription"),
        url: url.clone(),
        import: false,
    };

    assert!(!db.forge_exists(&create_forge_msg.url).unwrap());
    db.create_forge_instance(&create_forge_msg).unwrap();
    assert!(db.forge_exists(&create_forge_msg.url).unwrap());
    {
        let forge = db.get_forge(&create_forge_msg.url).unwrap();
        let forges = db.get_all_forges(true, 0, 100).unwrap();
        assert!(forges.iter().any(|f| f.url == create_forge_msg.url.as_str()));
        assert_eq!(forge.forge_type, create_forge_msg.forge_type);
        assert_eq!(forge.url, clean_url(&create_forge_msg.url));
        assert!(!forge.imported);
        assert_eq!(forge.starchart_url, None);
        assert_eq!(forge.last_crawl_on, None);
    }

    db.add_user(&add_user_msg).unwrap();
    db.add_user(&add_user_msg2).unwrap();
    {
        let db_user = db.get_user(add_user_msg.username, &add_user_msg.url).unwrap();
        assert_eq!(db_user.url, clean_url(&add_user_msg.url));
        assert_eq!(db_user.username, add_user_msg.username);
        assert_eq!(db_user.html_link, add_user_msg.html_link);
        assert_eq!(db_user.profile_photo, None);
        let second = db.get_user(USERNAME2, &url).unwrap();
        assert_eq!(second.profile_photo, Some(HTML_PROFILE_PHOTO_URL_2.to_string()));
    }
    assert!(db.user_exists(add_user_msg.username, None).unwrap());
    assert!(db.user_exists(add_user_msg.username, Some(&add_user_msg.url)).unwrap());
    assert!(!db.user_exists("nobody", None).unwrap());

    db.create_repository(&add_repo_msg).unwrap();
    assert!(db
        .repository_exists(add_repo_msg.name, add_repo_msg.owner, &add_repo_msg.url)
        .unwrap());
    assert!(db.get_all_repositories(0, 1000).unwrap().len() >= 1);
    let repo_search = db.search_repository(add_repo_msg.name).unwrap();
    assert!(!repo_search.is_empty());
    assert_eq!(repo_search.first().unwrap().url, add_repo_msg.url.as_str());
    assert_eq!(repo_search[0].name, REPO_NAME);
    assert_eq!(repo_search[0].username, USERNAME);
    assert_eq!(
        repo_search[0].tags,
        Some(vec!["test".to_string(), "starchart".to_string(), "spider".to_string()])
    );

    db.delete_repository(add_repo_msg.owner, add_repo_msg.name, &add_repo_msg.url)
        .unwrap();
    assert!(!db
        .repository_exists(add_repo_msg.name, add_repo_msg.owner, &add_repo_msg.url)
        .unwrap());

    // delete user
    db.delete_user(add_user_msg.username, &add_user_msg.url).unwrap();
    assert!(!db
        .user_exists(add_user_msg.username, Some(&add_user_msg.url))
        .unwrap());
    assert!(db.user_exists(USERNAME2, Some(&url)).unwrap());
}

#[test]
fn deleting_takes_what_belongs_along() {
    let url = Url::parse(URL).unwrap();
    let other = Url::parse("https://other.example.com").unwrap();
    let mut db = Database::new();
    for u in [&url, &other] {
        db.create_forge_instance(&CreateForge {
            url: u.clone(),
            forge_type: ForgeImplementation::Gitea,
            starchart_url: None,
        })
        .unwrap();
        for name in [USERNAME, USERNAME2] {
            db.add_user(&AddUser {
                url: u.clone(),
                html_link: HTML_PROFILE_URL,
                profile_photo: None,
                username: name,
                import: false,
            })
            .unwrap();
            for repo in ["one", "two"] {
                db.create_repository(&AddRepository {
                    html_link: HTML_REPO_URL,
                    name: repo,
                    tags: None,
                    owner: name,
                    website: None,
                    description: None,
                    url: u.clone(),
                    import: false,
                })
                .unwrap();
            }
        }
    }
    assert_eq!(db.get_all_repositories(0, 100).unwrap().len(), 8);
    db.delete_user(USERNAME, &url).unwrap();
    assert_eq!(db.get_all_repositories(0, 100).unwrap().len(), 6);
    assert!(!db.repository_exists("one", USERNAME, &url).unwrap());
    assert!(db.repository_exists("one", USERNAME2, &url).unwrap());
    assert!(db.repository_exists("one", USERNAME, &other).unwrap());
    assert!(db.user_exists(USERNAME, None).unwrap());
    db.delete_forge_instance(&url).unwrap();
    assert!(!db.forge_exists(&url).unwrap());
    assert!(db.forge_exists(&other).unwrap());
    assert!(!db.user_exists(USERNAME2, Some(&url)).unwrap());
    let left: Vec<_> = db
        .get_all_repositories(0, 100)
        .unwrap()
        .into_iter()
        .map(|r| (r.url, r.username, r.name))
        .collect();
    assert_eq!(
        left,
        vec![
            ("https://other.example.com/".to_string(), "user1".to_string(), "one".to_string()),
            ("https://other.example.com/".to_string(), "user1".to_string(), "two".to_string()),
            ("https://other.example.com/".to_string(), "user2".to_string(), "one".to_string()),
            ("https://other.example.com/".to_string(), "user2".to_string(), "two".to_string()),
        ]
    );
    db.delete_forge_instance(&url).unwrap();
    db.delete_forge_instance(&other).unwrap();
    assert!(db.get_all_forges(true, 0, 10).unwrap().is_empty());
    assert!(db.get_all_repositories(0, 10).unwrap().is_empty());
    assert!(!db.user_exists(USERNAME, None).unwrap());
}

#[test]
fn list_forges_works() {
    const URL: &str = "https://list-forges-works-test.example.com";
    let url = Url::parse(URL).unwrap();
    let mut db = Database::new();
    let create_forge_msg = CreateForge {
        url: url.clone(),
        forge_type: ForgeImplementation::Gitea,
        starchart_url: None,
    };
    let _ = db.delete_forge_instance(&create_forge_msg.url);
    db.create_forge_instance(&create_forge_msg).unwrap();
    assert!(db.forge_exists(&create_forge_msg.url).unwrap());

    // the first part of the list, as a request without a page asks for it
    let page = Page::from(OptionalPage { page: None });
    let offset = page.offset(50).unwrap();
    let forges_list = db.get_all_forges(false, offset, 50).unwrap();
    assert!(!forges_list.is_empty());
    assert!(forges_list.iter().any(|f| f.url == create_forge_msg.url.as_str()));
}

#[test]
fn forge_type_exists() {
    let db = Database::new();
    let f = ForgeImplementation::Gitea;
    assert!(db.forge_type_exists(&f).unwrap());
    assert_eq!(f.to_str(), "gitea");
    assert_eq!(ForgeImplementation::from_str(" gitea\n").unwrap(), ForgeImplementation::Gitea);
    match ForgeImplementation::from_str(" gitlab ") {
        Err(DBError::UnknownForgeType(s)) => assert_eq!(s, "gitlab"),
        _ => panic!("an unknown forge type was taken"),
    }
}

#[test]
fn introducer_works() {
    let mut db = Database::new();
    let instance_url = Url::parse("https://introducer_works_sqlite_sqlx.example.com").unwrap();
    db.add_starchart_to_introducer(&instance_url).unwrap();
    db.add_starchart_to_introducer(&instance_url).unwrap();
    let instances = db.get_all_introduced_starchart_instances(0, 100).unwrap();
    assert!(instances.iter().any(|i| i.instance_url == instance_url.as_str()));
    assert_eq!(instances.len(), 1);
    assert!(db.is_starchart_introduced(&instance_url));
}

#[test]
fn mini_index_test() {
    // batman is repeated twice but mini-index should contain it only once
    // Batman is different from Batman; mini-index is case-sensitive
    const WORDS: [&str; 5] = ["batman", "superman", "aquaman", "Batman", "batman"];
    let expected_mini_index = "superman aquaman Batman batman";

    let mut db = Database::new();
    for w in WORDS.iter() {
        db.rm_word_from_mini_index(w).unwrap();
        assert!(!db.is_word_mini_indexed(w).unwrap());
        db.add_word_to_mini_index(w).unwrap();
        assert!(db.is_word_mini_indexed(w).unwrap());
    }
    let mini_index = db.export_mini_index().unwrap();
    assert_eq!(mini_index, expected_mini_index);
}

#[test]
fn mini_index_holds_each_word_once() {
    let mut db = Database::new();
    for w in ["batman", "superman", "aquaman", "Batman", "batman"] {
        db.add_word_to_mini_index(w).unwrap();
    }
    let exported = db.export_mini_index().unwrap();
    assert_eq!(exported, "batman superman aquaman Batman");
    for w in ["superman", "aquaman", "Batman", "batman"] {
        assert_eq!(exported.split(' ').filter(|x| x == &w).count(), 1);
    }
    assert!(db.is_word_mini_indexed("Batman").unwrap());
    assert!(!db.is_word_mini_indexed("BATMAN").unwrap());
    assert_eq!(Database::new().export_mini_index().unwrap(), "");
}

#[test]
fn duplicates_and_orphans_are_refused() {
    let url = Url::parse(URL).unwrap();
    let mut db = Database::new();
    let user = AddUser {
        url: url.clone(),
        html_link: HTML_PROFILE_URL,
        profile_photo: None,
        username: USERNAME,
        import: false,
    };
    let repo = AddRepository {
        html_link: HTML_REPO_URL,
        name: REPO_NAME,
        tags: None,
        owner: USERNAME,
        website: None,
        description: None,
        url: url.clone(),
        import: false,
    };
    assert!(matches!(db.add_user(&user), Err(DBError::DBError(_))));
    assert!(matches!(db.get_forge(&url), Err(DBError::DBError(_))));
    db.create_forge_instance(&forge_msg(URL)).unwrap();
    assert!(matches!(
        db.create_forge_instance(&forge_msg("https://test-gitea.example.com/some/path")),
        Err(DBError::DuplicateHostname)
    ));
    assert!(matches!(db.create_repository(&repo), Err(DBError::DBError(_))));
    assert!(matches!(db.get_user(USERNAME, &url), Err(DBError::DBError(_))));
    db.add_user(&user).unwrap();
    assert!(matches!(db.add_user(&user), Err(DBError::DuplicateUserLink)));
    db.create_repository(&repo).unwrap();
    assert!(matches!(db.create_repository(&repo), Err(DBError::DuplicateRepositoryLink)));
    assert_eq!(db.get_all_forges(true, 0, 10).unwrap().len(), 1);
    assert_eq!(db.get_all_repositories(0, 10).unwrap().len(), 1);
    assert_eq!(db.export_mini_index().unwrap(), "user1 starchart");
}

#[test]
fn lists_are_read_page_by_page() {
    let mut db = Database::new();
    for i in 0..5 {
        let mut msg = forge_msg(&format!("https://forge{i}.example.com"));
        let peer = "https://peer.example.com/";
        if i % 2 == 1 {
            msg.starchart_url = Some(peer);
        }
        db.create_forge_instance(&msg).unwrap();
    }
    let urls = |v: Vec<starchart::db::Forge>| v.into_iter().map(|f| f.url).collect::<Vec<_>>();
    assert_eq!(
        urls(db.get_all_forges(true, 0, 2).unwrap()),
        vec!["https://forge0.example.com/", "https://forge1.example.com/"]
    );
    assert_eq!(
        urls(db.get_all_forges(true, 4, 2).unwrap()),
        vec!["https://forge4.example.com/"]
    );
    assert!(db.get_all_forges(true, 5, 2).unwrap().is_empty());
    assert!(db.get_all_forges(true, u32::MAX, u32::MAX).unwrap().is_empty());
    assert_eq!(
        urls(db.get_all_forges(false, 0, 2).unwrap()),
        vec!["https://forge0.example.com/", "https://forge2.example.com/"]
    );
    assert_eq!(
        urls(db.get_all_forges(false, 2, 2).unwrap()),
        vec!["https://forge4.example.com/"]
    );
    assert!(db.get_all_forges(false, 0, 0).unwrap().is_empty());
    let imported = db.get_forge(&Url::parse("https://forge1.example.com").unwrap()).unwrap();
    assert!(imported.imported);
    assert_eq!(imported.starchart_url, Some("https://peer.example.com/".to_string()));
    assert!(db
        .is_starchart_imported(&Url::parse("https://peer.example.com").unwrap())
        .unwrap());
    assert!(!db
        .is_starchart_imported(&Url::parse("https://other.example.com").unwrap())
        .unwrap());
    assert_eq!(page_bounds(10, 3, 4), (3, 7));
    assert_eq!(page_bounds(10, 8, 4), (8, 10));
    assert_eq!(page_bounds(10, 12, 4), (10, 10));
}

#[test]
fn imported_mini_indexes_are_replaced_and_searched() {
    let mut db = Database::new();
    let a = Url::parse("https://a.example.com").unwrap();
    let b = Url::parse("https://b.example.com").unwrap();
    db.import_mini_index(&a, "batman superman").unwrap();
    db.import_mini_index(&b, "aquaman batman").unwrap();
    assert_eq!(
        db.search_mini_index("batman").unwrap(),
        vec!["https://a.example.com/", "https://b.example.com/"]
    );
    assert_eq!(db.search_mini_index("*superman*").unwrap(), vec!["https://a.example.com/"]);
    db.import_mini_index(&a, "flash").unwrap();
    assert_eq!(db.search_mini_index("*batman*").unwrap(), vec!["https://b.example.com/"]);
    assert_eq!(db.search_mini_index("*flash*").unwrap(), vec!["https://a.example.com/"]);
    assert!(db.search_mini_index("*superman*").unwrap().is_empty());
    db.rm_imported_mini_index(&b).unwrap();
    assert!(db.search_mini_index("*batman*").unwrap().is_empty());
    db.rm_imported_mini_index(&b).unwrap();
    assert_eq!(core_of("*bat*man*"), "batman");
    assert_eq!(core_of("batman"), "batman");
    assert_eq!(core_of("**"), "");
}

#[test]
fn dns_challenges_are_kept_by_their_key() {
    let mut db = Database::new();
    let challenge = Challenge {
        key: "starchart-a.example.forge.example".to_string(),
        hostname: "https://forge.example".to_string(),
        value: "secret".to_string(),
    };
    assert!(!db.dns_challenge_exists(&challenge.key).unwrap());
    assert!(matches!(db.get_dns_challenge(&challenge.key), Err(DBError::DBError(_))));
    db.create_dns_challenge(&challenge).unwrap();
    assert!(db.dns_challenge_exists(&challenge.key).unwrap());
    assert!(matches!(
        db.create_dns_challenge(&challenge),
        Err(DBError::DuplicateChallengeHostname)
    ));
    let got = db.get_dns_challenge(&challenge.key).unwrap();
    assert_eq!(got.value, "secret");
    assert_eq!(got.hostname, "https://forge.example");
    db.delete_dns_challenge(&challenge.key).unwrap();
    assert!(!db.dns_challenge_exists(&challenge.key).unwrap());
    db.delete_dns_challenge(&challenge.key).unwrap();
}

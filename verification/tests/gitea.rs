use std::collections::HashMap;

use starchart::db::ForgeImplementation;
use starchart::federate::ExportTree;
use starchart::memory::crawl;
use starchart::store::Database;
use starchart::gitea::schema::{
    InternalIssueTracker, Organization, Permission, Repository, SearchResults, Team, Topics, User,
};
use starchart::gitea::{
    empty_is_none, Gitea, PageBuilder, GITEA_IDENTIFIER, GITEA_NODEINFO, REPO_SEARCH_PATH,
};
use starchart::weburl::Url;

pub const GITEA_HOST: &str = "http://localhost:8080";

fn owner(id: usize, name: &str) -> User {
    User {
        id,
        login: name.to_string(),
        full_name: name.to_string(),
        email: String::new(),
        avatar_url: format!("http://localhost:8080/avatars/{name}"),
        language: String::new(),
        is_admin: false,
        last_login: String::new(),
        created: String::new(),
        restricted: false,
        active: true,
        prohibit_login: false,
        location: String::new(),
        website: String::new(),
        description: String::new(),
        visibility: "public".to_string(),
        followers_count: 0,
        following_count: 0,
        starred_repos_count: 0,
        username: name.to_string(),
    }
}

fn found(user: &str, name: &str, website: &str) -> Repository {
    Repository {
        name: name.to_string(),
        full_name: format!("{user}/{name}"),
        description: format!("the {name} of {user}"),
        empty: false,
        private: false,
        fork: false,
        template: false,
        parent: None,
        mirror: false,
        size: 0,
        html_url: format!("http://localhost:8080/{user}/{name}"),
        ssh_url: String::new(),
        clone_url: String::new(),
        original_url: String::new(),
        owner: owner(1, user),
        website: website.to_string(),
        stars_count: 0,
        forks_count: 0,
        watchers_count: 0,
        open_issues_count: 0,
        open_pr_counter: 0,
        release_counter: 0,
        default_branch: "master".to_string(),
        archived: false,
        created_at: String::new(),
        updated_at: String::new(),
        internal_tracker: InternalIssueTracker {
            enable_time_tracker: true,
            allow_only_contributors_to_track_time: true,
            enable_issue_dependencies: true,
        },
        has_issues: true,
        has_wiki: true,
        has_pull_requests: true,
        has_projects: true,
        ignore_whitespace_conflicts: false,
        allow_merge_commits: true,
        allow_rebase: true,
        allow_rebase_explicit: true,
        allow_squash_merge: true,
        default_merge_style: "merge".to_string(),
        avatar_url: String::new(),
        internal: false,
        mirror_interval: String::new(),
        mirror_updated: String::new(),
        repo_transfer: None,
    }
}

fn topics(list: &[&str]) -> Topics {
    Topics { topics: list.iter().map(|t| t.to_string()).collect() }
}

#[test]
fn gitea_works() {
    let ctx = Gitea::new(Url::parse(GITEA_HOST).unwrap()).unwrap();
    assert!(ctx.is_forge());
    assert_eq!(ctx.forge_type(), ForgeImplementation::Gitea);
    assert_eq!(ctx.get_url().as_str(), "http://localhost:8080/");
    assert_eq!(ctx.instance_url().as_str(), "http://localhost:8080/");
    assert_eq!(REPO_SEARCH_PATH, "/api/v1/repos/search");
    assert_eq!(GITEA_NODEINFO, "/api/v1/nodeinfo");
    assert_eq!(GITEA_IDENTIFIER, "gitea");
    assert_eq!(Gitea::search_query(10, 3), "page=3&limit=10");
    assert_eq!(Gitea::search_query(0, 0), "page=0&limit=0");
    assert_eq!(Gitea::topics_path("bot", "repository_7"), "/api/v1/repos/bot/repository_7/topics");
}

#[test]
fn the_identity_of_a_forge_has_no_path() {
    let ctx = Gitea::new(Url::parse("https://git.example.com/explore/repos?q=x").unwrap()).unwrap();
    assert_eq!(ctx.get_url().as_str(), "https://git.example.com/");
    assert_eq!(ctx.instance_url().as_str(), "https://git.example.com/explore/repos?q=x");
    let user = ctx.to_user(&owner(3, "real aravinth")).unwrap();
    assert_eq!(user.username, "real aravinth");
    assert_eq!(user.html_link, "https://git.example.com/real%20aravinth?q=x");
    assert_eq!(
        user.profile_photo,
        Some("http://localhost:8080/avatars/real aravinth".to_string())
    );
    assert_eq!(user.url.as_str(), "https://git.example.com/");
}

#[test]
fn a_page_is_put_together_with_each_owner_once() {
    let gitea = Gitea::new(Url::parse(GITEA_HOST).unwrap()).unwrap();
    let results = SearchResults {
        ok: true,
        data: vec![
            found("alice", "one", " https://one.example.org "),
            found("bob", "two", ""),
            found("alice", "three", "   "),
        ],
    };
    let mut page = PageBuilder::new(&gitea, results, 20);
    let first = page.next_request().unwrap();
    assert_eq!(first.path, "/api/v1/repos/alice/one/topics");
    assert_eq!(first.wait, 0);
    assert!(page.add_topics(topics(&["rust", "spider"])));
    let second = page.next_request().unwrap();
    assert_eq!(second.path, "/api/v1/repos/bob/two/topics");
    assert_eq!(second.wait, 20);
    assert!(page.add_topics(topics(&["spider", "forge", "spider"])));
    let third = page.next_request().unwrap();
    assert_eq!(third.path, "/api/v1/repos/alice/three/topics");
    assert_eq!(third.wait, 20);
    assert!(page.add_topics(topics(&[])));
    assert!(page.next_request().is_none());
    assert!(!page.add_topics(topics(&["late"])));

    let resp = page.finish();
    let users: Vec<&str> = resp.users.iter().map(|u| u.username.as_str()).collect();
    assert_eq!(users, vec!["alice", "bob"]);
    assert_eq!(resp.users[0].html_link, "http://localhost:8080/alice");
    assert_eq!(resp.tags, vec!["rust", "spider", "forge"]);
    assert_eq!(resp.repos.len(), 3);
    assert_eq!(resp.repos[0].name, "one");
    assert_eq!(resp.repos[0].owner, "alice");
    assert_eq!(resp.repos[0].html_link, "http://localhost:8080/alice/one");
    assert_eq!(resp.repos[0].website, Some("https://one.example.org".to_string()));
    assert_eq!(resp.repos[0].description, Some("the one of alice".to_string()));
    assert_eq!(resp.repos[0].tags, Some(vec!["rust".to_string(), "spider".to_string()]));
    assert_eq!(resp.repos[1].website, None);
    assert_eq!(
        resp.repos[1].tags,
        Some(vec!["spider".to_string(), "forge".to_string(), "spider".to_string()])
    );
    assert_eq!(resp.repos[2].website, None);
    assert_eq!(resp.repos[2].owner, "alice");
    assert_eq!(resp.repos[2].tags, Some(vec![]));
    assert!(resp.repos.iter().all(|r| r.url.as_str() == "http://localhost:8080/"));
    let as_message = resp.repos[0].to_add_repository();
    assert_eq!(as_message.owner, "alice");
    assert_eq!(as_message.tags, Some(vec!["rust", "spider"]));
    assert!(!as_message.import);
    assert_eq!(resp.users[1].to_add_user().username, "bob");
}

#[test]
fn a_forge_of_a_hundred_repositories_is_crawled_page_by_page() {
    let url = Url::parse(GITEA_HOST).unwrap();
    let gitea = Gitea::new(url.clone()).unwrap();
    let mut pages = Vec::new();
    let mut requests = 0;
    for p in 0..10 {
        let data = (0..10)
            .map(|i| found(&format!("owner_{}", (p * 10 + i) % 7), &format!("repository_{}", p * 10 + i), ""))
            .collect();
        let mut page = PageBuilder::new(&gitea, SearchResults { ok: true, data }, 1);
        while page.next_request().is_some() {
            requests += 1;
            assert!(page.add_topics(topics(&["spider"])));
        }
        pages.push(page.finish());
    }
    assert_eq!(requests, 100);

    let mut db = Database::new();
    let mut federate = ExportTree::new("/tmp/starchart".to_string());
    let report = crawl(gitea.get_url(), gitea.forge_type(), pages, 10, 1, &mut db, &mut federate)
        .unwrap();
    // ten pages with repositories, and the empty page that ends the crawl
    assert_eq!(report.pages, 10);
    assert_eq!(report.fetches, 11);
    assert_eq!(db.get_all_forges(true, 0, 1000).unwrap().len(), 1);
    let repos = db.get_all_repositories(0, 1000).unwrap();
    assert_eq!(repos.len(), 100);
    for i in 0..7 {
        assert!(db.user_exists(&format!("owner_{i}"), Some(gitea.get_url())).unwrap());
    }
    assert!(!db.user_exists("owner_7", None).unwrap());
    for r in repos.iter() {
        assert!(db.user_exists(&r.username, Some(gitea.get_url())).unwrap());
    }
    // each owner and the one topic were indexed once
    let index = db.export_mini_index().unwrap();
    assert_eq!(index.split(' ').filter(|w| *w == "owner_3").count(), 1);
    assert_eq!(index.split(' ').filter(|w| *w == "spider").count(), 1);
}

#[test]
fn an_empty_search_gives_an_empty_page() {
    let gitea = Gitea::new(Url::parse(GITEA_HOST).unwrap()).unwrap();
    let page = PageBuilder::new(&gitea, SearchResults { ok: true, data: vec![] }, 20);
    assert!(page.next_request().is_none());
    let resp = page.finish();
    assert!(resp.repos.is_empty() && resp.users.is_empty() && resp.tags.is_empty());
}

#[test]
fn empty_is_none_works() {
    assert_eq!(empty_is_none(""), None);
    assert_eq!(empty_is_none("  \t"), None);
    assert_eq!(empty_is_none(" a "), Some("a".to_string()));
}

#[test]
fn schema_holds_what_gitea_answers() {
    let team = Team {
        can_create_org_repo: false,
        description: String::new(),
        id: 1,
        includes_all_repositories: true,
        name: "owners".to_string(),
        organization: Organization {
            avatar_url: String::new(),
            description: String::new(),
            full_name: "Org".to_string(),
            id: 2,
            location: String::new(),
            repo_admin_change_team_access: false,
            username: "org".to_string(),
            visibility: "public".to_string(),
            website: String::new(),
        },
        permission: Permission::Owner,
        units: vec!["repo.code".to_string()],
        units_map: HashMap::new(),
    };
    assert_eq!(team.permission, Permission::Owner);
    assert_ne!(Permission::NoAccess, Permission::Read);
    let mut repo = found("alice", "fork", "");
    repo.parent = Some(Box::new(found("bob", "origin", "")));
    repo.repo_transfer = Some(team);
    assert_eq!(repo.parent.as_ref().unwrap().owner.username, "bob");
}

use starchart::ctx::{user_agent, CLIENT_TIMEOUT, GC_PERIOD};
use starchart::mock::{full_name, html_url, Api, OptionalPage, RepositoryPath, TextProcessor};
use starchart::pages::Page;
use starchart::spider::{plan_import, should_stop, Known, Polled, Write};
use starchart::forge::User;
use starchart::text::{replace, starts_with};
use starchart::weburl::Url;

#[test]
fn the_route_of_the_topics_names_owner_and_repository() {
    let routes = Api::new();
    assert_eq!(routes.repos_search, "/api/v1/repos/search");
    assert_eq!(routes.repo_tags, "/api/v1/repos/{username}/{name}/topics");
    assert_eq!(routes.get_tags_url("db_works", "search_works_repo_1"), "/api/v1/repos/db_works/search_works_repo_1/topics");
    assert_eq!(
        routes.get_tags_url("{name}", "x"),
        "/api/v1/repos/x/x/topics"
    );
    let path = RepositoryPath { username: "a".to_string(), name: "b".to_string() };
    assert_eq!(routes.get_tags_url(&path.username, &path.name), "/api/v1/repos/a/b/topics");
}

#[test]
fn replace_works_as_in_std() {
    for (s, from, to) in [
        ("aaa", "a", "b"),
        ("aaa", "aa", "b"),
        ("abcabc", "bc", ""),
        ("abc", "abcd", "x"),
        ("", "a", "b"),
        ("xay", "a", "aa"),
        ("{name}/{name}", "{name}", "n"),
        ("ababa", "aba", "-"),
    ] {
        assert_eq!(replace(s, from, to), s.replace(from, to));
    }
    assert!(starts_with("abc", "ab"));
    assert!(starts_with("abc", ""));
    assert!(starts_with("abc", "abc"));
    assert!(!starts_with("abc", "abcd"));
    assert!(!starts_with("abc", "b"));
}

#[test]
fn search_works_test() {
    let mut page = 0;
    let limit = 10;
    let repos = 100;
    while page <= repos / limit {
        let q = OptionalPage { page, limit };
        assert_eq!(q.offset(), Some(page * limit));
        page += 1;
    }
    assert_eq!(page, 11);
    assert_eq!(OptionalPage { page: u32::MAX, limit: 2 }.offset(), None);
    assert_eq!(Page { page: 3 }.offset(50), Some(150));
    assert_eq!(Page { page: u32::MAX }.offset(50), None);
    assert_eq!(full_name("bot", "repository_1"), "bot/repository_1");
    assert_eq!(
        html_url("localhost", 8080, "bot", "repository_1"),
        "http://localhost:8080/bot/repository_1"
    );
}

#[test]
fn lines_are_counted_and_drawn() {
    for txt in ["", "a", "a\n", "a\nb", "a\r\nb\r\n", "\n", "\n\n", "a\n\nb", "a\r", "a\r\n\r\n"] {
        let t = TextProcessor::new(txt.to_string());
        let lines: Vec<&str> = txt.lines().collect();
        assert_eq!(t.lines(), lines.len());
        for (n, line) in lines.iter().enumerate() {
            assert_eq!(&t.line(n), line);
        }
        match t.get_random_shakespeare() {
            Some(line) => assert!(lines.contains(&line.as_str())),
            None => assert!(lines.is_empty()),
        }
    }
    let t = TextProcessor::new("to be\nor not\nto be\n".to_string());
    assert_eq!(t.lines(), 3);
    assert_eq!(t.line(1), "or not");
}

#[test]
fn an_archive_goes_to_each_store_that_lacks_a_record() {
    let url = Url::parse("https://forge.example.com").unwrap();
    let user = |name: &str| User {
        url: url.clone(),
        username: name.to_string(),
        html_link: String::new(),
        profile_photo: None,
    };
    let users = vec![user("a"), user("b"), user("a"), user("c"), user("d")];
    let known = vec![
        Known { store: false, export: false },
        Known { store: true, export: false },
        Known { store: false, export: false },
        Known { store: false, export: true },
        Known { store: true, export: true },
    ];
    assert_eq!(
        plan_import(&users, &known),
        vec![
            Write { store: true, export: true },
            Write { store: false, export: true },
            Write { store: false, export: false },
            Write { store: true, export: false },
            Write { store: false, export: false },
        ]
    );
}

#[test]
fn a_task_stops_when_told_or_when_nobody_can_tell_it() {
    assert!(should_stop(Polled::Value(true)));
    assert!(!should_stop(Polled::Value(false)));
    assert!(!should_stop(Polled::Empty));
    assert!(should_stop(Polled::Closed));
}

#[test]
fn the_user_agent_names_the_instance() {
    let plain = Url::parse("https://starchart.example.org/some/path").unwrap();
    assert_eq!(user_agent("0.1.0", "starchart", &plain), "0.1.0---starchart---starchart.example.org");
    let with_port = Url::parse("http://localhost:7000").unwrap();
    assert_eq!(with_port.port(), Some(7000));
    assert_eq!(user_agent("0.1.0", "starchart", &with_port), "0.1.0---starchart---localhost:7000");
    let default_port = Url::parse("https://example.org:443").unwrap();
    assert_eq!(default_port.port(), None);
    assert_eq!(CLIENT_TIMEOUT, 60);
    assert_eq!(GC_PERIOD, 45);
}

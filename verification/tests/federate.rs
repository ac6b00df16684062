use starchart::db::{AddRepository, AddUser, CreateForge, ForgeImplementation};
use starchart::federate::{
    join_path, latest, latest_tar, name_snapshot, prune, sort_times, time_of_snapshot, ExportTree,
    PccFederate, CONTENTS_DIR, INSTANCE_INFO_FILE, KEEP_SNAPSHOTS, REPO_INFO_FILE, USER_INFO_FILE,
};
use starchart::weburl::Url;

const URL: &str = "https://test-gitea.example.com";
const HTML_PROFILE_URL: &str = "https://test-gitea.example.com/user1";
const USERNAME: &str = "user1";
const REPO_NAME: &str = "starchart";
const HTML_REPO_URL: &str = "https://test-gitea.example.com/user1/starchart";
const TAGS: [&str; 3] = ["test", "starchart", "spider"];

#[test]
fn federate_everything_works() {
    let url = Url::parse(URL).unwrap();
    let create_forge_msg = CreateForge {
        url: url.clone(),
        forge_type: ForgeImplementation::Gitea,
        starchart_url: None,
    };
    let add_user_msg = AddUser {
        url: url.clone(),
        html_link: HTML_PROFILE_URL,
        profile_photo: None,
        username: USERNAME,
        import: false,
    };
    let add_repo_msg = AddRepository {
        html_link: HTML_REPO_URL,
        name: REPO_NAME,
        tags: Some(TAGS.into()),
        owner: USERNAME,
        website: None,
        description: None,
        url: url.clone(),
        import: false,
    };
    let mut ff = ExportTree::new("/tmp/export".to_string());
    assert!(!ff.forge_exists(&create_forge_msg.url));
    ff.create_forge_instance(&create_forge_msg);
    assert!(ff.forge_exists(&create_forge_msg.url));
    assert!(!ff.user_exists(USERNAME, &url));
    ff.create_user(&add_user_msg);
    ff.create_user(&add_user_msg);
    assert!(ff.user_exists(USERNAME, &url));
    assert!(!ff.repository_exists(REPO_NAME, USERNAME, &url));
    ff.create_repository(&add_repo_msg);
    assert!(ff.repository_exists(REPO_NAME, USERNAME, &url));
    assert!(!ff.repository_exists(USERNAME, REPO_NAME, &url));

    // delete repository
    ff.delete_repository(add_repo_msg.owner, add_repo_msg.name, &add_repo_msg.url);
    assert!(!ff.repository_exists(REPO_NAME, USERNAME, &url));
    assert!(ff.user_exists(USERNAME, &url));
    // delete user
    ff.create_repository(&add_repo_msg);
    ff.delete_user(add_user_msg.username, &add_user_msg.url);
    assert!(!ff.user_exists(USERNAME, &url));
    assert!(!ff.repository_exists(REPO_NAME, USERNAME, &url));
    assert!(ff.forge_exists(&url));
    // delete forge
    ff.create_user(&add_user_msg);
    ff.delete_forge_instance(&create_forge_msg.url);
    assert!(!ff.forge_exists(&url));
    assert!(!ff.user_exists(USERNAME, &url));
}

#[test]
fn deleting_a_user_leaves_the_users_whose_names_begin_alike() {
    let url = Url::parse(URL).unwrap();
    let mut ff = ExportTree::new("/tmp/export".to_string());
    for name in ["user1", "user10"] {
        ff.create_user(&AddUser {
            url: url.clone(),
            html_link: HTML_PROFILE_URL,
            profile_photo: None,
            username: name,
            import: false,
        });
    }
    ff.delete_user("user1", &url);
    assert!(!ff.user_exists("user1", &url));
    assert!(ff.user_exists("user10", &url));
}

#[test]
fn records_lie_below_the_host_the_user_and_the_repository() {
    let url = Url::parse("https://test-gitea.example.com:8080/x").unwrap();
    let ff = PccFederate::new("/srv/starchart".to_string());
    assert_eq!(CONTENTS_DIR, "uncompressed");
    assert_eq!(INSTANCE_INFO_FILE, "instance.yml");
    assert_eq!(USER_INFO_FILE, "user.yml");
    assert_eq!(REPO_INFO_FILE, "publiccode.yml");
    assert_eq!(ff.get_content_path(), "/srv/starchart/uncompressed");
    assert_eq!(ff.get_instance_path(&url), "/srv/starchart/uncompressed/test-gitea.example.com");
    assert_eq!(
        ff.get_user_path("user1", &url),
        "/srv/starchart/uncompressed/test-gitea.example.com/user1"
    );
    assert_eq!(
        ff.get_repo_path("starchart", "user1", &url),
        "/srv/starchart/uncompressed/test-gitea.example.com/user1/starchart"
    );
    assert_eq!(
        ff.get_instance_file(&url),
        "/srv/starchart/uncompressed/test-gitea.example.com/instance.yml"
    );
    assert_eq!(
        ff.get_user_file("user1", &url),
        "/srv/starchart/uncompressed/test-gitea.example.com/user1/user.yml"
    );
    assert_eq!(
        ff.get_repo_file("starchart", "user1", &url),
        "/srv/starchart/uncompressed/test-gitea.example.com/user1/starchart/publiccode.yml"
    );
}

#[test]
fn paths_are_joined_as_on_unix() {
    for (base, part) in [("a", "b"), ("a/", "b"), ("", "b"), ("a", "/b"), ("a", ""), ("/", "b"), ("a/b", "c/d")] {
        let expected = std::path::Path::new(base).join(part);
        assert_eq!(join_path(base, part), expected.to_str().unwrap());
    }
    assert_eq!(join_path("a", "b"), "a/b");
    assert_eq!(join_path("a", "/b"), "/b");
}

#[test]
fn archives_are_named_by_their_time() {
    assert_eq!(name_snapshot(1650000000), "1650000000.tar");
    assert_eq!(name_snapshot(0), "0.tar");
    assert_eq!(time_of_snapshot("1650000000.tar"), Some(1650000000));
    assert_eq!(time_of_snapshot("0.tar"), Some(0));
    assert_eq!(time_of_snapshot("1650000000.tar.gz"), None);
    assert_eq!(time_of_snapshot("1650000000.tar.tar"), None);
    assert_eq!(time_of_snapshot("backup.tar"), None);
    assert_eq!(time_of_snapshot(".tar"), None);
    assert_eq!(time_of_snapshot("+5.tar"), None);
    assert_eq!(time_of_snapshot("5tar"), None);
    assert_eq!(time_of_snapshot("LICENSE.txt"), None);
    assert_eq!(time_of_snapshot(""), None);
    for t in [0u64, 9, 1234567890, u64::MAX] {
        assert_eq!(time_of_snapshot(&name_snapshot(t)), Some(t));
    }
}

#[test]
fn the_five_most_recent_archives_stay() {
    assert_eq!(KEEP_SNAPSHOTS, 5);
    let times = vec![50, 10, 70, 30, 20, 60, 40];
    assert_eq!(sort_times(&times), vec![10, 20, 30, 40, 50, 60, 70]);
    let p = prune(&times);
    assert_eq!(p.delete, vec![10, 20]);
    assert_eq!(p.keep, vec![30, 40, 50, 60, 70]);
    let p = prune(&vec![3, 1, 2]);
    assert!(p.delete.is_empty());
    assert_eq!(p.keep, vec![1, 2, 3]);
    let p = prune(&vec![5, 4, 3, 2, 1]);
    assert!(p.delete.is_empty());
    assert_eq!(p.keep, vec![1, 2, 3, 4, 5]);
    let p = prune(&vec![6, 5, 4, 3, 2, 1]);
    assert_eq!(p.delete, vec![1]);
    let p = prune(&vec![7, 7, 7, 7, 7, 7]);
    assert_eq!(p.delete, vec![7]);
    assert_eq!(p.keep, vec![7, 7, 7, 7, 7]);
    let p = prune(&vec![]);
    assert!(p.delete.is_empty() && p.keep.is_empty());
}

#[test]
fn the_latest_archive_is_the_most_recent() {
    assert_eq!(latest(&vec![50, 10, 70, 30]), Some(70));
    assert_eq!(latest(&vec![]), None);
    assert_eq!(latest_tar(&vec![50, 10, 70, 30]), Some("70.tar".to_string()));
    assert_eq!(latest_tar(&vec![]), None);
}

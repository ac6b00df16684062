//! What a Gitea instance answers: the results of a search for
//! repositories and the topics of a repository.

use std::collections::HashMap;
use vstd::prelude::*;

verus! {

/// The answer to a search for repositories.
#[derive(Debug)]
pub struct SearchResults {
    pub ok: bool,
    pub data: Vec<Repository>,
}

/// A user of a Gitea instance.
#[derive(Debug)]
pub struct User {
    pub id: usize,
    pub login: String,
    pub full_name: String,
    pub email: String,
    pub avatar_url: String,
    pub language: String,
    pub is_admin: bool,
    pub last_login: String,
    pub created: String,
    pub restricted: bool,
    pub active: bool,
    pub prohibit_login: bool,
    pub location: String,
    pub website: String,
    pub description: String,
    pub visibility: String,
    pub followers_count: usize,
    pub following_count: usize,
    pub starred_repos_count: usize,
    pub username: String,
}

/// A repository of a Gitea instance.
#[derive(Debug)]
pub struct Repository {
    pub name: String,
    pub full_name: String,
    pub description: String,
    pub empty: bool,
    pub private: bool,
    pub fork: bool,
    pub template: bool,
    pub parent: Option<Box<Repository>>,
    pub mirror: bool,
    pub size: usize,
    pub html_url: String,
    pub ssh_url: String,
    pub clone_url: String,
    pub original_url: String,
    pub owner: User,
    pub website: String,
    pub stars_count: usize,
    pub forks_count: usize,
    pub watchers_count: usize,
    pub open_issues_count: usize,
    pub open_pr_counter: usize,
    pub release_counter: usize,
    pub default_branch: String,
    pub archived: bool,
    pub created_at: String,
    pub updated_at: String,
    pub internal_tracker: InternalIssueTracker,
    pub has_issues: bool,
    pub has_wiki: bool,
    pub has_pull_requests: bool,
    pub has_projects: bool,
    pub ignore_whitespace_conflicts: bool,
    pub allow_merge_commits: bool,
    pub allow_rebase: bool,
    pub allow_rebase_explicit: bool,
    pub allow_squash_merge: bool,
    pub default_merge_style: String,
    pub avatar_url: String,
    pub internal: bool,
    pub mirror_interval: String,
    pub mirror_updated: String,
    pub repo_transfer: Option<Team>,
}

/// The settings of the issue tracker of a repository.
#[derive(Clone, Copy, Debug, PartialEq, Eq, Structural)]
pub struct InternalIssueTracker {
    pub enable_time_tracker: bool,
    pub allow_only_contributors_to_track_time: bool,
    pub enable_issue_dependencies: bool,
}

/// The transfer of a repository from one user to another.
#[derive(Debug)]
pub struct RepoTransfer {
    pub doer: User,
    pub recipient: User,
    pub teams: Option<Team>,
}

/// An organisation of a Gitea instance.
#[derive(Debug)]
pub struct Organization {
    pub avatar_url: String,
    pub description: String,
    pub full_name: String,
    pub id: u64,
    pub location: String,
    pub repo_admin_change_team_access: bool,
    pub username: String,
    pub visibility: String,
    pub website: String,
}

/// What a team may do.
#[derive(Clone, Copy, Debug, PartialEq, Eq, Structural)]
pub enum Permission {
    NoAccess,
    Read,
    Write,
    Admin,
    Owner,
}

/// A team of an organisation.
#[derive(Debug)]
pub struct Team {
    pub can_create_org_repo: bool,
    pub description: String,
    pub id: u64,
    pub includes_all_repositories: bool,
    pub name: String,
    pub organization: Organization,
    pub permission: Permission,
    pub units: Vec<String>,
    pub units_map: HashMap<String, String>,
}

/// The topics of a repository.
#[derive(Debug)]
pub struct Topics {
    pub topics: Vec<String>,
}

} // verus!

//! What a forge adapter hands back for one page of a forge: the
//! repositories of the page, their owners and their topics.

use vstd::prelude::*;
use crate::db::{AddRepository, AddUser};
use crate::table::KeyView;
use crate::text::{opt_str, opt_string, same};
use crate::weburl::Url;

verus! {

/// A record with an identity under which a store keeps it.
pub trait Keyed {
    /// The identity of the record.
    spec fn key(&self) -> KeyView;

    /// Whether the two records have the same identity.
    fn same_record(&self, other: &Self) -> (r: bool)
        ensures
            r == (self.key() == other.key()),
    ;
}

/// A user of a forge, as the adapter found them.
#[derive(Debug)]
pub struct User {
    /// url of the forge instance
    pub url: Url,
    /// username of the user
    pub username: String,
    /// html link to the user profile
    pub html_link: String,
    /// OPTIONAL: html link to the user's profile photo
    pub profile_photo: Option<String>,
}

impl Keyed for User {
    /// The identity of the user: the forge and the username.
    open spec fn key(&self) -> KeyView {
        seq![self.url@.origin, self.username@]
    }

    fn same_record(&self, other: &Self) -> (r: bool) {
        let r = same(self.url.origin(), other.url.origin()) && self.username == other.username;
        proof {
            if r {
                assert(self.key() =~= other.key());
            } else {
                assert(self.key()[0] == self.url@.origin && self.key()[1] == self.username@);
                assert(other.key()[0] == other.url@.origin && other.key()[1] == other.username@);
            }
        }
        r
    }
}

impl User {
    /// The message that adds this user to a store, as a record crawled
    /// here.
    pub fn to_add_user(&self) -> (r: AddUser<'_>)
        ensures
            r.url@ == self.url@,
            r.username@ == self.username@,
            r.html_link@ == self.html_link@,
            opt_str(r.profile_photo) == opt_string(self.profile_photo),
            !r.import,
    {
        AddUser {
            url: self.url.clone(),
            username: self.username.as_str(),
            html_link: self.html_link.as_str(),
            profile_photo: match &self.profile_photo {
                Some(p) => Some(p.as_str()),
                None => None,
            },
            import: false,
        }
    }
}

/// A repository of a forge, as the adapter found it.
#[derive(Debug)]
pub struct Repository {
    /// html link to the repository
    pub html_link: String,
    /// repository topic tags
    pub tags: Option<Vec<String>>,
    /// url of the forge instance
    pub url: Url,
    /// repository name
    pub name: String,
    /// username of the repository's owner, one of the page's users
    pub owner: String,
    /// repository description, if any
    pub description: Option<String>,
    /// repository website, if any
    pub website: Option<String>,
}

/// Borrows each string of `v`.
pub fn borrowed(v: &Vec<String>) -> (r: Vec<&str>)
    ensures
        r.len() == v.len(),
        forall|i: int| 0 <= i < v.len() ==> r@[i]@ == v@[i]@,
{
    let mut r: Vec<&str> = Vec::new();
    let mut i: usize = 0;
    while i < v.len()
        invariant
            i <= v.len(),
            r.len() == i,
            forall|k: int| 0 <= k < i ==> r@[k]@ == v@[k]@,
        decreases v.len() - i,
    {
        r.push(v[i].as_str());
        i = i + 1;
    }
    r
}

impl Keyed for Repository {
    /// The identity of the repository: the forge, the owner and the name.
    open spec fn key(&self) -> KeyView {
        seq![self.url@.origin, self.owner@, self.name@]
    }

    fn same_record(&self, other: &Self) -> (r: bool) {
        let r = same(self.url.origin(), other.url.origin()) && self.owner == other.owner
            && self.name == other.name;
        proof {
            if r {
                assert(self.key() =~= other.key());
            } else {
                assert(self.key()[0] == self.url@.origin && self.key()[1] == self.owner@
                    && self.key()[2] == self.name@);
                assert(other.key()[0] == other.url@.origin && other.key()[1] == other.owner@
                    && other.key()[2] == other.name@);
            }
        }
        r
    }
}

impl Repository {
    /// The identity of the repository's owner.
    pub open spec fn owner_key(&self) -> KeyView {
        seq![self.url@.origin, self.owner@]
    }

    /// The message that adds this repository to a store, as a record
    /// crawled here.
    pub fn to_add_repository(&self) -> (r: AddRepository<'_>)
        ensures
            r.url@ == self.url@,
            r.name@ == self.name@,
            r.owner@ == self.owner@,
            r.html_link@ == self.html_link@,
            opt_str(r.description) == opt_string(self.description),
            opt_str(r.website) == opt_string(self.website),
            r.tags is Some <==> self.tags is Some,
            r.tags matches Some(t) ==> t.len() == self.tags->0.len() && forall|i: int|
                0 <= i < t.len() ==> t@[i]@ == self.tags->0@[i]@,
            !r.import,
    {
        AddRepository {
            html_link: self.html_link.as_str(),
            tags: match &self.tags {
                Some(t) => Some(borrowed(t)),
                None => None,
            },
            url: self.url.clone(),
            name: self.name.as_str(),
            owner: self.owner.as_str(),
            description: match &self.description {
                Some(d) => Some(d.as_str()),
                None => None,
            },
            website: match &self.website {
                Some(w) => Some(w.as_str()),
                None => None,
            },
            import: false,
        }
    }
}

/// One page of a forge.
#[derive(Debug)]
pub struct CrawlResp {
    /// the repositories of the page; none where the forge has no more
    pub repos: Vec<Repository>,
    /// the topics of the page's repositories, each once
    pub tags: Vec<String>,
    /// the owners of the page's repositories, each once
    pub users: Vec<User>,
}

impl CrawlResp {
    /// The identities of the page's users, one by one.
    pub open spec fn user_keys(&self) -> Seq<KeyView> {
        Seq::new(self.users@.len(), |i: int| self.users@[i].key())
    }

    /// The identities of the page's repositories, one by one.
    pub open spec fn repo_keys(&self) -> Seq<KeyView> {
        Seq::new(self.repos@.len(), |i: int| self.repos@[i].key())
    }

    /// The page that ends a crawl: nothing on it.
    pub fn empty() -> (r: Self)
        ensures
            r.repos@.len() == 0,
            r.users@.len() == 0,
            r.tags@.len() == 0,
    {
        CrawlResp { repos: Vec::new(), tags: Vec::new(), users: Vec::new() }
    }
}

} // verus!

//! The records that the store keeps and the messages that create them.

use vstd::prelude::*;
use crate::text::{copy_all, opt_string, owned, same, texts, trim, trimmed};
use crate::weburl::Url;

verus! {

/// The ways in which a store operation can fail.
#[derive(Debug)]
pub enum DBError {
    /// DNS challenge value is already taken
    DuplicateChallengeText,
    /// DNS challenge hostname is already taken
    DuplicateChallengeHostname,
    /// Hostname is already taken
    DuplicateHostname,
    /// Forge type is already taken
    DuplicateForgeType,
    /// User HTML link is already taken
    DuplicateUserLink,
    /// User profile photo link is already taken
    DuplicateProfilePhotoLink,
    /// Topic is already taken
    DuplicateTopic,
    /// Repository link is already taken
    DuplicateRepositoryLink,
    /// forge instance type is unknown
    UnknownForgeType(String),
    /// an error of the store's own, with its message
    DBError(String),
}

/// Result of a store operation.
pub type DBResult<V> = Result<V, DBError>;

/// Forge type: Gitea, Sourcehut, GitLab, etc. Only Gitea is supported.
#[derive(Clone, Copy, Debug, PartialEq, Eq, Structural)]
pub enum ForgeImplementation {
    /// [Gitea](https://gitea.io) software forge
    Gitea,
}

impl ForgeImplementation {
    /// The name under which the forge type is stored.
    pub open spec fn name(self) -> Seq<char> {
        match self {
            ForgeImplementation::Gitea => "gitea"@,
        }
    }

    /// Convert [ForgeImplementation] to [str]
    pub fn to_str(&self) -> (r: &'static str)
        ensures
            r@ == self.name(),
    {
        match self {
            ForgeImplementation::Gitea => "gitea",
        }
    }

    /// Convert [str] to [ForgeImplementation]: the name of a forge type,
    /// with or without white space around it. Any other text is an
    /// unknown forge type, reported with the text as it was trimmed.
    pub fn from_str(s: &str) -> (r: DBResult<Self>)
        ensures
            match r {
                Ok(f) => trimmed(s@) == f.name(),
                Err(DBError::UnknownForgeType(t)) => t@ == trimmed(s@) && trimmed(s@)
                    != ForgeImplementation::Gitea.name(),
                Err(_) => false,
            },
    {
        let s = trim(s);
        if same(s, ForgeImplementation::Gitea.to_str()) {
            Ok(ForgeImplementation::Gitea)
        } else {
            Err(DBError::UnknownForgeType(owned(s)))
        }
    }
}

/// create a new forge on the database
#[derive(Debug)]
pub struct CreateForge<'a> {
    /// url of the forge instance
    pub url: Url,
    /// forge type: which software is the instance running?
    pub forge_type: ForgeImplementation,
    /// the peer from which the forge was learned, if it was not crawled here
    pub starchart_url: Option<&'a str>,
}

/// user data
#[derive(Debug)]
pub struct User {
    /// url of the forge instance: scheme and authority only
    pub url: String,
    /// username of the user
    pub username: String,
    /// html link to the user profile
    pub html_link: String,
    /// OPTIONAL: html link to the user's profile photo
    pub profile_photo: Option<String>,
    /// whether the record was learned from a peer
    pub import: bool,
}

impl Clone for User {
    fn clone(&self) -> (r: Self)
        ensures
            r == *self,
    {
        User {
            url: self.url.clone(),
            username: self.username.clone(),
            html_link: self.html_link.clone(),
            profile_photo: self.profile_photo.clone(),
            import: self.import,
        }
    }
}

/// add new user to database
#[derive(Debug)]
pub struct AddUser<'a> {
    /// url of the forge instance
    pub url: Url,
    /// username of the user
    pub username: &'a str,
    /// html link to the user profile
    pub html_link: &'a str,
    /// OPTIONAL: html link to the user's profile photo
    pub profile_photo: Option<&'a str>,
    /// whether the record was learned from a peer
    pub import: bool,
}

/// add new repository to database
#[derive(Debug)]
pub struct AddRepository<'a> {
    /// html link to the repository
    pub html_link: &'a str,
    /// repository topic tags
    pub tags: Option<Vec<&'a str>>,
    /// url of the forge instance
    pub url: Url,
    /// repository name
    pub name: &'a str,
    /// repository owner
    pub owner: &'a str,
    /// repository description, if any
    pub description: Option<&'a str>,
    /// repository website, if any
    pub website: Option<&'a str>,
    /// whether the record was learned from a peer
    pub import: bool,
}

/// data representing a forge instance
#[derive(Debug)]
pub struct Forge {
    /// url of the forge: scheme and authority only
    pub url: String,
    /// type of the forge
    pub forge_type: ForgeImplementation,
    /// last crawl
    pub last_crawl_on: Option<i64>,
    /// the peer from which the forge was learned
    pub starchart_url: Option<String>,
    /// whether the forge was learned from a peer and not crawled here
    pub imported: bool,
}

impl Clone for Forge {
    fn clone(&self) -> (r: Self)
        ensures
            r == *self,
    {
        Forge {
            url: self.url.clone(),
            forge_type: self.forge_type,
            last_crawl_on: self.last_crawl_on,
            starchart_url: self.starchart_url.clone(),
            imported: self.imported,
        }
    }
}

/// repository
#[derive(Debug)]
pub struct Repository {
    /// html link to the repository
    pub html_url: String,
    /// repository topic tags
    pub tags: Option<Vec<String>>,
    /// url of the forge instance: scheme and authority only
    pub url: String,
    /// repository name
    pub name: String,
    /// repository owner
    pub username: String,
    /// repository description, if any
    pub description: Option<String>,
    /// repository website, if any
    pub website: Option<String>,
    /// whether the record was learned from a peer
    pub import: bool,
}

impl Repository {
    /// What the repository's topic tags hold.
    pub open spec fn tag_texts(&self) -> Option<Seq<Seq<char>>> {
        match self.tags {
            Some(t) => Some(texts(t@)),
            None => None,
        }
    }

    /// Whether the two records hold the same.
    pub open spec fn same_as(&self, other: &Repository) -> bool {
        &&& self.html_url@ == other.html_url@
        &&& self.tag_texts() == other.tag_texts()
        &&& self.url@ == other.url@
        &&& self.name@ == other.name@
        &&& self.username@ == other.username@
        &&& opt_string(self.description) == opt_string(other.description)
        &&& opt_string(self.website) == opt_string(other.website)
        &&& self.import == other.import
    }
}

impl Clone for Repository {
    fn clone(&self) -> (r: Self)
        ensures
            r.same_as(self),
    {
        Repository {
            html_url: self.html_url.clone(),
            tags: match &self.tags {
                Some(t) => Some(copy_all(t)),
                None => None,
            },
            url: self.url.clone(),
            name: self.name.clone(),
            username: self.username.clone(),
            description: self.description.clone(),
            website: self.website.clone(),
            import: self.import,
        }
    }
}

/// represents a DNS challenge
#[derive(Debug)]
pub struct Challenge {
    /// key of TXT record
    pub key: String,
    /// hostname of the forge instance
    pub hostname: String,
    /// value of TXT record
    pub value: String,
}

impl Clone for Challenge {
    fn clone(&self) -> (r: Self)
        ensures
            r == *self,
    {
        Challenge {
            key: self.key.clone(),
            hostname: self.hostname.clone(),
            value: self.value.clone(),
        }
    }
}

/// A known peer node of the federation.
#[derive(Debug)]
pub struct Starchart {
    /// the URL under which the peer is reached
    pub instance_url: String,
}

impl Clone for Starchart {
    fn clone(&self) -> (r: Self)
        ensures
            r == *self,
    {
        Starchart { instance_url: self.instance_url.clone() }
    }
}

} // verus!

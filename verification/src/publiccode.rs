//! The description of a repository as the federation export store
//! publishes it, after the publiccode.yml standard.

use vstd::prelude::*;
use crate::db::AddRepository;
use crate::forge::borrowed;
use crate::text::{opt_str, opt_string, owned, owned_all, owned_opt, same};
use crate::weburl::{url_href, Url};

verus! {

/// the version of the standard that the descriptions follow
pub const PUBLIC_CODE_VERSION: &'static str = "0.2";

/// the language in which repositories are described
pub const LANGUAGE: &'static str = "en";

/// The description of a repository in one language.
#[derive(Debug)]
pub struct Description {
    pub short_description: Option<String>,
    pub long_description: Option<String>,
    pub documentation: Option<String>,
}

/// The legal side of a repository.
#[derive(Debug)]
pub struct Legal {
    pub license: Option<String>,
    pub repo_owner: String,
}

/// One who maintains a repository.
#[derive(Debug)]
pub struct Contacts {
    pub name: String,
}

/// How a repository is maintained.
#[derive(Debug)]
pub struct Maintenance {
    pub m_type: Option<String>,
    pub contacts: Vec<Contacts>,
}

/// For whom a repository is meant.
#[derive(Debug)]
pub struct IntendedAudience {
    pub scope: Option<Vec<String>>,
}

impl IntendedAudience {
    /// Whether nothing is said of the audience: there is no scope, or an
    /// empty one.
    pub fn is_none(&self) -> (r: bool)
        ensures
            r == match self.scope {
                Some(s) => s@.len() == 0,
                None => true,
            },
    {
        match &self.scope {
            Some(s) => s.len() == 0,
            None => true,
        }
    }
}

/// The description of a repository.
#[derive(Debug)]
pub struct Repository {
    pub publiccode_yml_version: String,
    pub name: String,
    pub url: Url,
    pub landing_url: Option<Url>,
    pub is_based_on: Option<String>,
    /// the descriptions, each with its language
    pub description: Vec<(String, Description)>,
    pub legal: Legal,
    pub intended_audience: IntendedAudience,
}

impl Repository {
    /// Whether the description at position `i` is the first in the
    /// language of the library.
    pub open spec fn english_at(&self, i: int) -> bool {
        &&& 0 <= i < self.description@.len()
        &&& self.description@[i].0@ == LANGUAGE@
        &&& forall|j: int| 0 <= j < i ==> (#[trigger] self.description@[j]).0@ != LANGUAGE@
    }

    /// Whether the repository is described in the language of the
    /// library.
    pub open spec fn has_english(&self) -> bool {
        exists|i: int| self.english_at(i)
    }

    /// The description in the language of the library, if there is one:
    /// the first, where there are several.
    pub fn get_description(&self) -> (r: Option<&Description>)
        ensures
            r is Some <==> self.has_english(),
            r matches Some(d) ==> exists|i: int|
                #[trigger] self.english_at(i) && *d == self.description@[i].1,
    {
        let mut i: usize = 0;
        while i < self.description.len()
            invariant
                i <= self.description@.len(),
                forall|j: int| 0 <= j < i ==> (#[trigger] self.description@[j]).0@ != LANGUAGE@,
            decreases self.description@.len() - i,
        {
            if same(self.description[i].0.as_str(), LANGUAGE) {
                assert(self.english_at(i as int));
                return Some(&self.description[i].1);
            }
            i = i + 1;
        }
        assert forall|k: int| !self.english_at(k) by {
            if 0 <= k < self.description@.len() {
                assert(self.description@[k].0@ != LANGUAGE@);
            }
        }
        None
    }

    /// The description of the repository that `r` creates. It fails where
    /// the link to the repository or its website is no URL.
    pub fn from(r: &AddRepository) -> (res: Result<Repository, crate::errors::ServiceError>)
        ensures
            res is Ok <==> url_href(r.html_link@) is Some && (r.website matches Some(w)
                ==> url_href(w@) is Some),
            res matches Ok(p) ==> {
                &&& p.publiccode_yml_version@ == PUBLIC_CODE_VERSION@
                &&& p.name@ == r.name@
                &&& p.url.source() == r.html_link@
                &&& p.url@.href == url_href(r.html_link@)->0
                &&& p.landing_url is Some <==> r.website is Some
                &&& p.landing_url matches Some(l) ==> l.source() == r.website->0@ && l@.href
                    == url_href(r.website->0@)->0
                &&& p.is_based_on is None
                &&& p.description@.len() == 1
                &&& p.description@[0].0@ == LANGUAGE@
                &&& opt_string(p.description@[0].1.short_description) == opt_str(r.description)
                &&& opt_string(p.description@[0].1.documentation) == opt_str(r.website)
                &&& p.description@[0].1.long_description is None
                &&& p.legal.license is None
                &&& p.legal.repo_owner@ == r.owner@
                &&& p.intended_audience.scope is Some <==> r.tags is Some
                &&& p.intended_audience.scope matches Some(s) ==> s@.len() == r.tags->0@.len()
                    && forall|i: int| 0 <= i < s@.len() ==> (#[trigger] s@[i])@ == r.tags->0@[i]@
            },
    {
        let url = match Url::parse(r.html_link) {
            Ok(u) => u,
            Err(e) => {
                return Err(e);
            },
        };
        let landing_url = match r.website {
            Some(w) => match Url::parse(w) {
                Ok(u) => Some(u),
                Err(e) => {
                    return Err(e);
                },
            },
            None => None,
        };
        let mut description: Vec<(String, Description)> = Vec::new();
        description.push(
            (
                owned(LANGUAGE),
                Description {
                    short_description: owned_opt(r.description),
                    documentation: owned_opt(r.website),
                    long_description: None,
                },
            ),
        );
        let scope = match &r.tags {
            Some(t) => Some(owned_all(t)),
            None => None,
        };
        Ok(
            Repository {
                publiccode_yml_version: owned(PUBLIC_CODE_VERSION),
                url,
                landing_url,
                name: owned(r.name),
                is_based_on: None,
                description,
                legal: Legal { license: None, repo_owner: owned(r.owner) },
                intended_audience: IntendedAudience { scope },
            },
        )
    }

    /// The message that creates the repository that is described, as one
    /// learned from a peer or not, as `import` says. `None` where the
    /// repository is not described in the language of the library.
    pub fn to_add_repository(&self, import: bool) -> (r: Option<AddRepository<'_>>)
        ensures
            r is Some <==> self.has_english(),
            r matches Some(a) ==> {
                &&& a.html_link@ == self.url@.href
                &&& a.url@ == self.url@
                &&& a.name@ == self.name@
                &&& a.owner@ == self.legal.repo_owner@
                &&& a.import == import
                &&& a.tags is Some <==> self.intended_audience.scope is Some
                &&& a.tags matches Some(t) ==> t@.len() == self.intended_audience.scope->0@.len()
                    && forall|i: int|
                    0 <= i < t@.len() ==> (#[trigger] t@[i])@
                        == self.intended_audience.scope->0@[i]@
                &&& exists|i: int|
                    #[trigger] self.english_at(i) && opt_str(a.description) == opt_string(
                        self.description@[i].1.short_description,
                    ) && opt_str(a.website) == opt_string(self.description@[i].1.documentation)
            },
    {
        let d = match self.get_description() {
            Some(d) => d,
            None => {
                return None;
            },
        };
        Some(
            AddRepository {
                html_link: self.url.as_str(),
                tags: match &self.intended_audience.scope {
                    Some(s) => Some(borrowed(s)),
                    None => None,
                },
                url: self.url.clone(),
                name: self.name.as_str(),
                owner: self.legal.repo_owner.as_str(),
                description: match &d.short_description {
                    Some(s) => Some(s.as_str()),
                    None => None,
                },
                website: match &d.documentation {
                    Some(s) => Some(s.as_str()),
                    None => None,
                },
                import,
            },
        )
    }
}

} // verus!

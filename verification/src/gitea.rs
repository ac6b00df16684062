//! The forge adapter for Gitea: where a page of repositories and the
//! topics of a repository are asked for, and how the page that the crawl
//! engine reads is put together from the answers.

use vstd::prelude::*;
use vstd::string::*;
use crate::db::ForgeImplementation;
use crate::forge::{CrawlResp, Keyed, Repository, User};
use crate::spider::keys_of;
use crate::text::{
    decimal, decimal_of, join2, join3, owned, same, texts, trim, trimmed,
};
use crate::weburl::{clean_url, url_with_path, Url, UrlView, MAX_TEXT};

pub mod schema;

verus! {

/// the path on which repositories are searched
pub const REPO_SEARCH_PATH: &'static str = "/api/v1/repos/search";

/// the path of the description of an instance
pub const GITEA_NODEINFO: &'static str = "/api/v1/nodeinfo";

/// the name by which a Gitea instance describes itself
pub const GITEA_IDENTIFIER: &'static str = "gitea";

/// A Gitea instance.
#[derive(Debug)]
pub struct Gitea {
    instance_url: Url,
    url: Url,
}

/// The text without white space around it, unless nothing is left.
pub open spec fn filled(s: Seq<char>) -> Option<Seq<char>> {
    if trimmed(s).len() == 0 {
        None
    } else {
        Some(trimmed(s))
    }
}

/// The text without white space around it; `None` where nothing is left.
pub fn empty_is_none(s: &str) -> (r: Option<String>)
    ensures
        crate::text::opt_string(r) == filled(s@),
{
    let s = trim(s);
    if s.unicode_len() == 0 {
        None
    } else {
        Some(owned(s))
    }
}

/// The path on which the topics of the repository `name` of `owner` are
/// asked for.
pub open spec fn topics_path(owner: Seq<char>, name: Seq<char>) -> Seq<char> {
    "/api/v1/repos/"@ + owner + "/"@ + name + "/topics"@
}

/// The query with which the page `page` of `limit` repositories is asked
/// for.
pub open spec fn search_query(limit: u64, page: u64) -> Seq<char> {
    "page="@ + decimal(page as nat) + "&limit="@ + decimal(limit as nat)
}

impl Gitea {
    /// The identity of the forge: the instance URL without path, query
    /// and fragment.
    pub closed spec fn url(&self) -> UrlView {
        self.url@
    }

    /// The URL at which the instance is reached.
    pub closed spec fn instance(&self) -> UrlView {
        self.instance_url@
    }

    /// The text that the instance URL was parsed from.
    pub closed spec fn instance_source(&self) -> Seq<char> {
        self.instance_url.source()
    }

    /// The URL at which the instance is reached.
    pub fn instance_url(&self) -> (r: &Url)
        ensures
            r@ == self.instance(),
            r.source() == self.instance_source(),
    {
        &self.instance_url
    }

    /// The adapter for the instance at `instance_url`. It fails where the
    /// identity of the forge is no URL.
    pub fn new(instance_url: Url) -> (r: Result<Gitea, crate::errors::ServiceError>)
        ensures
            r is Ok <==> crate::weburl::url_href(instance_url@.origin) is Some,
            r matches Ok(g) ==> {
                let origin = instance_url@.origin;
                &&& g.instance() == instance_url@
                &&& g.instance_source() == instance_url.source()
                &&& g.url() == (UrlView {
                    href: crate::weburl::url_href(origin)->0,
                    origin: crate::weburl::url_origin(origin),
                    host: crate::weburl::url_host(origin),
                    scheme: crate::weburl::url_scheme(origin),
                    port: crate::weburl::url_port(origin),
                })
            },
    {
        let origin = clean_url(&instance_url);
        match Url::parse(origin.as_str()) {
            Ok(url) => Ok(Gitea { instance_url, url }),
            Err(e) => Err(e),
        }
    }

    /// Whether the instance is a Gitea: the adapter supports no other
    /// forge and takes it for one.
    pub fn is_forge(&self) -> (r: bool)
        ensures
            r,
    {
        true
    }

    /// The identity of the forge.
    pub fn get_url(&self) -> (r: &Url)
        ensures
            r@ == self.url(),
    {
        &self.url
    }

    /// The kind of forge.
    pub fn forge_type(&self) -> (r: ForgeImplementation)
        ensures
            r == ForgeImplementation::Gitea,
    {
        ForgeImplementation::Gitea
    }

    /// The query with which the page `page` of `limit` repositories is
    /// asked for, on the path `REPO_SEARCH_PATH`.
    pub fn search_query(limit: u64, page: u64) -> (r: String)
        ensures
            r@ == search_query(limit, page),
    {
        let mut r = join2("page=", decimal_of(page).as_str());
        let tail = join2("&limit=", decimal_of(limit).as_str());
        r = join2(r.as_str(), tail.as_str());
        assert(r@ =~= search_query(limit, page));
        r
    }

    /// The path on which the topics of the repository `name` of `owner`
    /// are asked for.
    pub fn topics_path(owner: &str, name: &str) -> (r: String)
        ensures
            r@ == topics_path(owner@, name@),
    {
        let head = join3("/api/v1/repos/", owner, "/");
        let r = join3(head.as_str(), name, "/topics");
        assert(r@ =~= topics_path(owner@, name@));
        r
    }

    /// The user of the forge that the owner `u` of a repository is: with
    /// the link to their profile, which is the instance URL with the
    /// username as its path. `None` where the URL or the username is
    /// longer than `MAX_TEXT`.
    pub fn to_user(&self, u: &schema::User) -> (r: Option<User>)
        ensures
            r is Some <==> self.instance_source().len() <= MAX_TEXT && u.username@.len()
                <= MAX_TEXT,
            r matches Some(user) ==> {
                &&& user.url@ == self.url()
                &&& user.username@ == u.username@
                &&& user.html_link@ == url_with_path(self.instance_source(), u.username@)
                &&& crate::text::opt_string(user.profile_photo) == Some(u.avatar_url@)
            },
    {
        match self.instance_url.with_path(u.username.as_str()) {
            Some(html_link) => Some(
                User {
                    url: self.url.clone(),
                    username: u.username.clone(),
                    html_link,
                    profile_photo: Some(u.avatar_url.clone()),
                },
            ),
            None => None,
        }
    }
}

/// A request for the topics of a repository.
#[derive(Debug)]
pub struct TopicsRequest {
    /// the path, on the instance, on which the topics are asked for
    pub path: String,
    /// the seconds to wait before the request is sent
    pub wait: u64,
}

/// A page in the making: the repositories that a search found are taken
/// one by one, each with its topics.
pub struct PageBuilder {
    url: Url,
    instance_url: Url,
    rate_limit: u64,
    rest: Vec<schema::Repository>,
    started: bool,
    resp: CrawlResp,
}

/// The topics once `topic` is among them: it is added at the end unless
/// it is there.
pub open spec fn with_topic(tags: Seq<Seq<char>>, topic: Seq<char>) -> Seq<Seq<char>> {
    if tags.contains(topic) {
        tags
    } else {
        tags.push(topic)
    }
}

/// The topics once each of `topics` is among them.
pub open spec fn with_topics(tags: Seq<Seq<char>>, topics: Seq<Seq<char>>) -> Seq<Seq<char>>
    decreases topics.len(),
{
    if topics.len() == 0 {
        tags
    } else {
        with_topic(with_topics(tags, topics.drop_last()), topics.last())
    }
}

/// Whether `made` is the repository of the forge at `url` that the
/// search result `found` with the topics `topics` describes.
pub open spec fn repository_made(
    made: Repository,
    url: UrlView,
    found: schema::Repository,
    topics: Seq<Seq<char>>,
) -> bool {
    &&& made.url@ == url
    &&& made.name@ == found.name@
    &&& made.owner@ == found.owner.username@
    &&& made.html_link@ == found.html_url@
    &&& crate::text::opt_string(made.website) == filled(found.website@)
    &&& crate::text::opt_string(made.description) == Some(found.description@)
    &&& made.tags matches Some(tags) && texts(tags@) == topics
}

/// The usernames of `users`, one by one.
pub open spec fn usernames(users: Seq<User>) -> Seq<Seq<char>> {
    Seq::new(users.len(), |i: int| users[i].username@)
}

impl PageBuilder {
    /// The identity of the forge.
    pub closed spec fn url(&self) -> UrlView {
        self.url@
    }

    /// The text that the instance URL was parsed from.
    pub closed spec fn instance(&self) -> Seq<char> {
        self.instance_url.source()
    }

    /// The seconds between two requests for topics.
    pub closed spec fn rate_limit(&self) -> u64 {
        self.rate_limit
    }

    /// The repositories that are still to be taken.
    pub closed spec fn rest(&self) -> Seq<schema::Repository> {
        self.rest@
    }

    /// Whether a repository was taken.
    pub closed spec fn started(&self) -> bool {
        self.started
    }

    /// The page as far as it is made.
    pub closed spec fn page(&self) -> CrawlResp {
        self.resp
    }

    /// The page is one of the forge: its users and repositories belong to
    /// the forge, no username and no topic stands twice, and the owner of
    /// each repository is one of its users.
    pub open spec fn wf(&self) -> bool {
        let page = self.page();
        &&& forall|i: int| 0 <= i < page.users@.len() ==> (#[trigger] page.users@[i]).url@ == self.url()
        &&& forall|i: int| 0 <= i < page.repos@.len() ==> (#[trigger] page.repos@[i]).url@ == self.url()
        &&& usernames(page.users@).no_duplicates()
        &&& texts(page.tags@).no_duplicates()
        &&& forall|i: int|
            0 <= i < page.repos@.len() ==> usernames(page.users@).contains(
                (#[trigger] page.repos@[i]).owner@,
            )
    }

    /// The start of a page from the results of a search.
    pub fn new(gitea: &Gitea, results: schema::SearchResults, rate_limit: u64) -> (b: PageBuilder)
        ensures
            b.wf(),
            b.url() == gitea.url(),
            b.instance() == gitea.instance_source(),
            b.rate_limit() == rate_limit,
            b.rest() == results.data@,
            !b.started(),
            b.page().repos@.len() == 0,
            b.page().users@.len() == 0,
            b.page().tags@.len() == 0,
    {
        PageBuilder {
            url: gitea.url.clone(),
            instance_url: gitea.instance_url.clone(),
            rate_limit,
            rest: results.data,
            started: false,
            resp: CrawlResp::empty(),
        }
    }

    /// The request for the topics of the repository that is taken next;
    /// `None` when no repository is left. The first request is sent at
    /// once, each later one after the wait that spares the forge.
    pub fn next_request(&self) -> (r: Option<TopicsRequest>)
        ensures
            r is Some <==> self.rest().len() > 0,
            r matches Some(req) ==> {
                &&& req.path@ == topics_path(self.rest()[0].owner.username@, self.rest()[0].name@)
                &&& req.wait == if self.started() {
                    self.rate_limit()
                } else {
                    0
                }
            },
    {
        if self.rest.len() == 0 {
            None
        } else {
            let repo = &self.rest[0];
            let wait = if self.started {
                self.rate_limit
            } else {
                0
            };
            Some(
                TopicsRequest {
                    path: Gitea::topics_path(repo.owner.username.as_str(), repo.name.as_str()),
                    wait,
                },
            )
        }
    }

    fn find_user(&self, username: &str) -> (r: bool)
        ensures
            r == usernames(self.page().users@).contains(username@),
    {
        let mut i: usize = 0;
        while i < self.resp.users.len()
            invariant
                i <= self.resp.users@.len(),
                forall|k: int| 0 <= k < i ==> usernames(self.resp.users@)[k] != username@,
            decreases self.resp.users@.len() - i,
        {
            if same(self.resp.users[i].username.as_str(), username) {
                assert(usernames(self.resp.users@)[i as int] == username@);
                return true;
            }
            i = i + 1;
        }
        false
    }

    fn find_tag(&self, tag: &str) -> (r: bool)
        ensures
            r == texts(self.page().tags@).contains(tag@),
    {
        let mut i: usize = 0;
        while i < self.resp.tags.len()
            invariant
                i <= self.resp.tags@.len(),
                forall|k: int| 0 <= k < i ==> texts(self.resp.tags@)[k] != tag@,
            decreases self.resp.tags@.len() - i,
        {
            if same(self.resp.tags[i].as_str(), tag) {
                assert(texts(self.resp.tags@)[i as int] == tag@);
                return true;
            }
            i = i + 1;
        }
        false
    }

    /// Whether the repository that is taken next can be taken: the link
    /// to its owner's profile can be made.
    pub open spec fn linkable(&self) -> bool {
        self.instance().len() <= MAX_TEXT && self.rest()[0].owner.username@.len() <= MAX_TEXT
    }

    /// Takes the next repository with its topics `topics`. Its owner
    /// becomes a user of the page unless a user of that name is one, and
    /// each topic a topic of the page unless it is one. A repository
    /// whose owner cannot be linked to is passed over. Answers whether
    /// the repository is on the page.
    pub fn add_topics(&mut self, topics: schema::Topics) -> (added: bool)
        requires
            old(self).wf(),
        ensures
            final(self).wf(),
            final(self).url() == old(self).url(),
            final(self).instance() == old(self).instance(),
            final(self).rate_limit() == old(self).rate_limit(),
            old(self).rest().len() == 0 ==> !added && final(self).rest() == old(self).rest()
                && final(self).page() == old(self).page() && final(self).started() == old(self).started(),
            old(self).rest().len() > 0 ==> final(self).rest() == old(self).rest().skip(1) && final(self).started() && added == old(self).linkable(),
            !added ==> final(self).page() == old(self).page(),
            added ==> {
                let found = old(self).rest()[0];
                let before = old(self).page();
                let page = final(self).page();
                &&& page.repos@.len() == before.repos@.len() + 1
                &&& page.repos@.drop_last() == before.repos@
                &&& repository_made(page.repos@.last(), old(self).url(), found, texts(topics.topics@))
                &&& texts(page.tags@) == with_topics(texts(before.tags@), texts(topics.topics@))
                &&& if usernames(before.users@).contains(found.owner.username@) {
                    page.users@ == before.users@
                } else {
                    &&& page.users@.len() == before.users@.len() + 1
                    &&& page.users@.drop_last() == before.users@
                    &&& page.users@.last().username@ == found.owner.username@
                    &&& page.users@.last().url@ == old(self).url()
                    &&& page.users@.last().html_link@ == url_with_path(
                        old(self).instance(),
                        found.owner.username@,
                    )
                    &&& crate::text::opt_string(page.users@.last().profile_photo) == Some(
                        found.owner.avatar_url@,
                    )
                }
            },
    {
        if self.rest.len() == 0 {
            return false;
        }
        let found = self.rest.remove(0);
        assert(self.rest@ =~= old(self).rest@.skip(1));
        self.started = true;
        let ghost before = self.resp;
        if !self.find_user(found.owner.username.as_str()) {
            let link = match self.instance_url.with_path(found.owner.username.as_str()) {
                Some(link) => link,
                None => {
                    return false;
                },
            };
            let user = User {
                url: self.url.clone(),
                username: found.owner.username.clone(),
                html_link: link,
                profile_photo: Some(found.owner.avatar_url.clone()),
            };
            self.resp.users.push(user);
            proof {
                let names = usernames(self.resp.users@);
                let old_names = usernames(before.users@);
                assert(names =~= old_names.push(found.owner.username@));
                assert(self.resp.users@.drop_last() =~= before.users@);
                assert forall|i: int| 0 <= i < before.repos@.len() implies names.contains(
                    (#[trigger] before.repos@[i]).owner@,
                ) by {
                    let j = old_names.index_of(before.repos@[i].owner@);
                    assert(names[j] == before.repos@[i].owner@);
                }
                assert(names[names.len() - 1] == found.owner.username@);
            }
        } else {
            if self.instance_url.source_str().unicode_len() > MAX_TEXT
                || found.owner.username.as_str().unicode_len() > MAX_TEXT {
                return false;
            }
        }
        let ghost mid_users = self.resp.users@;
        let mut tags: Vec<String> = Vec::new();
        let ghost all = texts(topics.topics@);
        let mut i: usize = 0;
        proof {
            assert(all.take(0) =~= Seq::<Seq<char>>::empty());
        }
        while i < topics.topics.len()
            invariant
                i <= topics.topics@.len(),
                all == texts(topics.topics@),
                tags@ == topics.topics@.take(i as int),
                self.resp.users@ == mid_users,
                self.resp.repos@ == before.repos@,
                self.rest@ == old(self).rest@.skip(1),
                self.url == old(self).url,
                self.instance_url == old(self).instance_url,
                self.rate_limit == old(self).rate_limit,
                self.started,
                texts(self.resp.tags@).no_duplicates(),
                texts(self.resp.tags@) == with_topics(texts(before.tags@), all.take(i as int)),
            decreases topics.topics@.len() - i,
        {
            let t = &topics.topics[i];
            proof {
                assert(all.take(i + 1).drop_last() =~= all.take(i as int));
                assert(all.take(i + 1).last() == t@);
            }
            if !self.find_tag(t.as_str()) {
                let ghost old_tags = texts(self.resp.tags@);
                self.resp.tags.push(t.clone());
                assert(texts(self.resp.tags@) =~= old_tags.push(t@));
            }
            tags.push(t.clone());
            assert(topics.topics@.take(i + 1) =~= topics.topics@.take(i as int).push(*t));
            i = i + 1;
        }
        proof {
            assert(all.take(topics.topics@.len() as int) =~= all);
            assert(topics.topics@.take(topics.topics@.len() as int) =~= topics.topics@);
        }
        let repo = Repository {
            url: self.url.clone(),
            website: empty_is_none(found.website.as_str()),
            name: found.name,
            owner: found.owner.username,
            html_link: found.html_url,
            tags: Some(tags),
            description: Some(found.description),
        };
        self.resp.repos.push(repo);
        proof {
            assert(self.resp.repos@.drop_last() =~= before.repos@);
            let names = usernames(self.resp.users@);
            assert forall|i: int| 0 <= i < self.resp.repos@.len() implies names.contains(
                (#[trigger] self.resp.repos@[i]).owner@,
            ) && self.resp.repos@[i].url@ == self.url() by {
                if i < before.repos@.len() {
                    assert(self.resp.repos@[i] == before.repos@[i]);
                }
            }
        }
        true
    }

    /// The page, once every repository was taken or passed over.
    pub fn finish(self) -> (page: CrawlResp)
        requires
            self.wf(),
        ensures
            page == self.page(),
            crate::memory::page_fits(page, self.url()),
    {
        proof {
            let page = self.resp;
            assert forall|i: int| 0 <= i < page.repos@.len() implies keys_of(page.users@).contains(
                (#[trigger] page.repos@[i]).owner_key(),
            ) by {
                let names = usernames(page.users@);
                let j = names.index_of(page.repos@[i].owner@);
                assert(names[j] == page.repos@[i].owner@);
                assert(keys_of(page.users@)[j] == page.users@[j].key());
                assert(page.users@[j].key() =~= page.repos@[i].owner_key());
            }
        }
        self.resp
    }
}

} // verus!

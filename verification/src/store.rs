//! A store held in memory: forges, their users and repositories, the known
//! peers, the lexical mini-index and the DNS challenges.

use vstd::prelude::*;
use crate::db::{
    AddRepository, AddUser, Challenge, CreateForge, DBError, DBResult, Forge,
    ForgeImplementation, Repository, Starchart, User,
};
use crate::table::{kept, key1, key2, key3, outside, under, KeyView, Table};
use crate::text::{
    contains, has, join, joined, opt_str, opt_string, owned, owned_all, owned_opt, same, split,
    split_on, texts,
};
use crate::weburl::Url;

verus! {

/// The key of a forge.
pub open spec fn forge_key(origin: Seq<char>) -> KeyView {
    seq![origin]
}

/// The key of a user.
pub open spec fn user_key(origin: Seq<char>, username: Seq<char>) -> KeyView {
    seq![origin, username]
}

/// The key of a repository.
pub open spec fn repo_key(origin: Seq<char>, owner: Seq<char>, name: Seq<char>) -> KeyView {
    seq![origin, owner, name]
}

/// Whether `row` is the forge that `f` creates.
pub open spec fn forge_made(row: Forge, f: CreateForge) -> bool {
    &&& row.url@ == f.url@.origin
    &&& row.forge_type == f.forge_type
    &&& row.last_crawl_on is None
    &&& opt_string(row.starchart_url) == opt_str(f.starchart_url)
    &&& row.imported == f.starchart_url is Some
}

/// Whether `row` is the user that `u` adds.
pub open spec fn user_made(row: User, u: AddUser) -> bool {
    &&& row.url@ == u.url@.origin
    &&& row.username@ == u.username@
    &&& row.html_link@ == u.html_link@
    &&& opt_string(row.profile_photo) == opt_str(u.profile_photo)
    &&& row.import == u.import
}

/// Whether `row` is the repository that `r` creates.
pub open spec fn repository_made(row: Repository, r: AddRepository) -> bool {
    &&& row.url@ == r.url@.origin
    &&& row.name@ == r.name@
    &&& row.username@ == r.owner@
    &&& row.html_url@ == r.html_link@
    &&& opt_string(row.description) == opt_str(r.description)
    &&& opt_string(row.website) == opt_str(r.website)
    &&& row.import == r.import
    &&& row.tags is Some <==> r.tags is Some
    &&& row.tags matches Some(t) ==> t@.len() == r.tags->0@.len() && forall|i: int|
        0 <= i < t@.len() ==> t@[i]@ == r.tags->0@[i]@
}

/// The words of a mini-index once `word` is indexed: it is added at the
/// end unless it is there.
pub open spec fn indexed(words: Seq<KeyView>, word: Seq<char>) -> Seq<KeyView> {
    if words.contains(seq![word]) {
        words
    } else {
        words.push(seq![word])
    }
}

/// The words of a mini-index once each of `more` is indexed, in order.
pub open spec fn indexed_all(words: Seq<KeyView>, more: Seq<Seq<char>>) -> Seq<KeyView>
    decreases more.len(),
{
    if more.len() == 0 {
        words
    } else {
        indexed(indexed_all(words, more.drop_last()), more.last())
    }
}

/// A mini-index in which a word was indexed holds that word and what it
/// held.
pub proof fn lemma_indexed(words: Seq<KeyView>, word: Seq<char>, key: KeyView)
    ensures
        indexed(words, word).contains(key) <==> words.contains(key) || key == seq![word],
{
    if !words.contains(seq![word]) {
        let pushed = words.push(seq![word]);
        if words.contains(key) {
            let j = words.index_of(key);
            assert(pushed[j] == key);
        }
        assert(pushed[pushed.len() - 1] == seq![word]);
        if pushed.contains(key) {
            let j = pushed.index_of(key);
            if j < words.len() {
                assert(words[j] == key);
            }
        }
    }
}

/// A mini-index in which words were indexed holds those words and what it
/// held.
pub proof fn lemma_indexed_all(words: Seq<KeyView>, more: Seq<Seq<char>>, key: KeyView)
    ensures
        indexed_all(words, more).contains(key) <==> words.contains(key) || exists|t: int|
            0 <= t < more.len() && key == seq![#[trigger] more[t]],
    decreases more.len(),
{
    if more.len() > 0 {
        let rest = more.drop_last();
        lemma_indexed_all(words, rest, key);
        lemma_indexed(indexed_all(words, rest), more.last(), key);
        if exists|t: int| 0 <= t < rest.len() && key == seq![#[trigger] rest[t]] {
            let t = choose|t: int| 0 <= t < rest.len() && key == seq![#[trigger] rest[t]];
            assert(more[t] == rest[t]);
        }
        if exists|t: int| 0 <= t < more.len() && key == seq![#[trigger] more[t]] {
            let t = choose|t: int| 0 <= t < more.len() && key == seq![#[trigger] more[t]];
            if t < rest.len() {
                assert(rest[t] == more[t]);
            }
        }
    }
}

/// The texts that a repository brings to the mini-index: its name, then
/// its topic tags.
pub open spec fn repository_words(r: AddRepository) -> Seq<Seq<char>> {
    match r.tags {
        Some(t) => seq![r.name@] + Seq::new(t@.len(), |i: int| t@[i]@),
        None => seq![r.name@],
    }
}

/// The rows of one page of a list: `limit` rows from position `offset`
/// on, or as many as there are.
pub open spec fn page_of<V>(rows: Seq<V>, offset: int, limit: int) -> Seq<V> {
    let from = if offset < rows.len() {
        offset
    } else {
        rows.len() as int
    };
    let to = if offset + limit < rows.len() {
        offset + limit
    } else {
        rows.len() as int
    };
    rows.subrange(from, to)
}

/// The bounds of one page of a list of `len` rows.
pub fn page_bounds(len: usize, offset: u32, limit: u32) -> (r: (usize, usize))
    ensures
        r.0 == (if offset < len { offset as int } else { len as int }),
        r.1 == (if offset + limit < len { offset + limit } else { len as int }),
        r.0 <= r.1 <= len,
{
    let from: usize = if (offset as u64) < (len as u64) {
        offset as usize
    } else {
        len
    };
    let end: u64 = offset as u64 + limit as u64;
    let to: usize = if end < (len as u64) {
        end as usize
    } else {
        len
    };
    (from, to)
}

/// The forges that a list shows: all of them, or those that were crawled
/// here.
pub open spec fn shown(rows: Seq<Forge>, with_imports: bool) -> Seq<Forge> {
    if with_imports {
        rows
    } else {
        rows.filter(|f: Forge| !f.imported)
    }
}

/// The words of a mini-index, one by one.
pub open spec fn words_of(keys: Seq<KeyView>) -> Seq<Seq<char>> {
    Seq::new(keys.len(), |i: int| keys[i][0])
}

/// The core of a search pattern: the pieces between its wildcard
/// markers, put together.
pub open spec fn pattern_core(query: Seq<char>) -> Seq<char> {
    joined(split(query, '*'), Seq::empty())
}

/// The core of a search pattern.
pub fn core_of(query: &str) -> (r: String)
    ensures
        r@ == pattern_core(query@),
{
    let pieces = split_on(query, '*');
    proof {
        reveal_strlit("");
    }
    assert(""@ =~= Seq::<char>::empty());
    join(&pieces, "")
}

/// The keys once `key` is taken out.
pub open spec fn without(keys: Seq<KeyView>, key: KeyView) -> Seq<KeyView> {
    if keys.contains(key) {
        keys.remove(keys.index_of(key))
    } else {
        keys
    }
}

/// Whether the repository matches a pattern with the core `core`: its
/// name, its description, its website or its link holds the core.
pub open spec fn repository_matches(row: Repository, core: Seq<char>) -> bool {
    ||| contains(row.name@, core)
    ||| (row.description matches Some(d) && contains(d@, core))
    ||| (row.website matches Some(w) && contains(w@, core))
    ||| contains(row.html_url@, core)
}

/// The positions, in ascending order, at which `flags` holds `true`.
pub open spec fn hits(flags: Seq<bool>) -> Seq<int>
    decreases flags.len(),
{
    if flags.len() == 0 {
        Seq::empty()
    } else if flags.last() {
        hits(flags.drop_last()).push(flags.len() - 1)
    } else {
        hits(flags.drop_last())
    }
}

/// Every hit is a position of `flags`.
pub proof fn lemma_hits(flags: Seq<bool>)
    ensures
        forall|j: int|
            0 <= j < hits(flags).len() ==> 0 <= #[trigger] hits(flags)[j] < flags.len() && flags[hits(flags)[j]],
    decreases flags.len(),
{
    if flags.len() > 0 {
        let rest = flags.drop_last();
        lemma_hits(rest);
        assert forall|j: int| 0 <= j < hits(flags).len() implies 0 <= #[trigger] hits(flags)[j]
            < flags.len() && flags[hits(flags)[j]] by {
            if j < hits(rest).len() {
                assert(hits(flags)[j] == hits(rest)[j]);
                assert(rest[hits(rest)[j]] == flags[hits(rest)[j]]);
            }
        }
    }
}

/// A store in memory.
pub struct Database {
    forges: Table<Forge>,
    users: Table<User>,
    repositories: Table<Repository>,
    introduced: Table<Starchart>,
    challenges: Table<Challenge>,
    words: Table<()>,
    imported_words: Table<String>,
}

impl Database {
    /// The forges, each under its URL.
    pub closed spec fn forges(&self) -> Table<Forge> {
        self.forges
    }

    /// The users, each under the URL of their forge and their username.
    pub closed spec fn users(&self) -> Table<User> {
        self.users
    }

    /// The repositories, each under the URL of its forge, the username of
    /// its owner and its name.
    pub closed spec fn repositories(&self) -> Table<Repository> {
        self.repositories
    }

    /// The known peers, each under its URL.
    pub closed spec fn introduced(&self) -> Table<Starchart> {
        self.introduced
    }

    /// The DNS challenges, each under its key.
    pub closed spec fn challenges(&self) -> Table<Challenge> {
        self.challenges
    }

    /// The words of the mini-index, each under itself.
    pub closed spec fn words(&self) -> Table<()> {
        self.words
    }

    /// The mini-indexes that were imported, each under the URL of the
    /// peer that it came from.
    pub closed spec fn imported_words(&self) -> Table<String> {
        self.imported_words
    }

    /// Every table is well-formed; every row stands under the key that it
    /// holds; every user belongs to a forge of the store, and every
    /// repository to a user of the store.
    pub open spec fn wf(&self) -> bool {
        &&& self.forges().wf()
        &&& self.users().wf()
        &&& self.repositories().wf()
        &&& self.introduced().wf()
        &&& self.challenges().wf()
        &&& self.words().wf()
        &&& self.imported_words().wf()
        &&& forall|i: int|
            0 <= i < self.forges().keys().len() ==> #[trigger] self.forges().keys()[i]
                == forge_key(self.forges().rows()[i].url@)
        &&& forall|i: int|
            0 <= i < self.users().keys().len() ==> {
                let row = self.users().rows()[i];
                &&& #[trigger] self.users().keys()[i] == user_key(row.url@, row.username@)
                &&& self.forges().has(forge_key(row.url@))
            }
        &&& forall|i: int|
            0 <= i < self.repositories().keys().len() ==> {
                let row = self.repositories().rows()[i];
                &&& #[trigger] self.repositories().keys()[i] == repo_key(
                    row.url@,
                    row.username@,
                    row.name@,
                )
                &&& self.users().has(user_key(row.url@, row.username@))
            }
        &&& forall|i: int|
            0 <= i < self.introduced().keys().len() ==> #[trigger] self.introduced().keys()[i]
                == seq![self.introduced().rows()[i].instance_url@]
        &&& forall|i: int|
            0 <= i < self.challenges().keys().len() ==> #[trigger] self.challenges().keys()[i]
                == seq![self.challenges().rows()[i].key@]
        &&& forall|i: int|
            0 <= i < self.words().keys().len() ==> (#[trigger] self.words().keys()[i]).len() == 1
        &&& forall|i: int|
            0 <= i < self.imported_words().keys().len() ==> (
            #[trigger] self.imported_words().keys()[i]).len() == 1
    }

    /// The mini-index holds each word once: no two of its words are the
    /// same, character for character.
    pub proof fn lemma_each_word_once(&self)
        requires
            self.wf(),
        ensures
            words_of(self.words().keys()).no_duplicates(),
    {
        let keys = self.words().keys();
        self.words().lemma_no_duplicates();
        assert forall|i: int, j: int|
            0 <= i < keys.len() && 0 <= j < keys.len() && i != j implies words_of(keys)[i]
            != words_of(keys)[j] by {
            assert(keys[i].len() == 1 && keys[j].len() == 1);
            if keys[i][0] == keys[j][0] {
                assert(keys[i] =~= keys[j]);
            }
        }
    }

    /// An empty store.
    pub fn new() -> (db: Database)
        ensures
            db.wf(),
            db.forges().keys().len() == 0,
            db.users().keys().len() == 0,
            db.repositories().keys().len() == 0,
            db.introduced().keys().len() == 0,
            db.challenges().keys().len() == 0,
            db.words().keys().len() == 0,
            db.imported_words().keys().len() == 0,
    {
        Database {
            forges: Table::new(),
            users: Table::new(),
            repositories: Table::new(),
            introduced: Table::new(),
            challenges: Table::new(),
            words: Table::new(),
            imported_words: Table::new(),
        }
    }

    /// ping DB: a store in memory is always there.
    pub fn ping(&self) -> (r: bool)
        ensures
            r,
    {
        true
    }

    /// check if a forge instance exists
    pub fn forge_exists(&self, url: &Url) -> (r: DBResult<bool>)
        requires
            self.wf(),
        ensures
            r matches Ok(b) && b == self.forges().has(forge_key(url@.origin)),
    {
        Ok(self.forges.contains(&key1(url.origin())))
    }

    /// check if forge type exists: every forge type that the library
    /// knows is known to the store.
    pub fn forge_type_exists(&self, forge_type: &ForgeImplementation) -> (r: DBResult<bool>)
        ensures
            r matches Ok(b) && b,
    {
        Ok(true)
    }

    /// create forge instance: the forge is added under its URL. Where the
    /// store has a forge under that URL, nothing changes and the hostname
    /// is reported as taken.
    pub fn create_forge_instance(&mut self, f: &CreateForge) -> (r: DBResult<()>)
        requires
            old(self).wf(),
        ensures
            final(self).wf(),
            match r {
                Ok(_) => {
                    &&& !old(self).forges().has(forge_key(f.url@.origin))
                    &&& final(self).forges().keys() == old(self).forges().keys().push(
                        forge_key(f.url@.origin),
                    )
                    &&& final(self).forges().rows().len() == old(self).forges().rows().len() + 1
                    &&& final(self).forges().rows().drop_last() == old(self).forges().rows()
                    &&& forge_made(final(self).forges().rows().last(), *f)
                    &&& final(self).same_but_forges(old(self))
                },
                Err(DBError::DuplicateHostname) => {
                    &&& old(self).forges().has(forge_key(f.url@.origin))
                    &&& *final(self) == *old(self)
                },
                Err(_) => false,
            },
    {
        let key = key1(f.url.origin());
        if self.forges.contains(&key) {
            return Err(DBError::DuplicateHostname);
        }
        let row = Forge {
            url: owned(f.url.origin()),
            forge_type: f.forge_type,
            last_crawl_on: None,
            starchart_url: owned_opt(f.starchart_url),
            imported: f.starchart_url.is_some(),
        };
        proof {
            old(self).forges().lemma_len();
        }
        self.forges.insert(key, row);
        proof {
            let keys = self.forges().keys();
            let rows = self.forges().rows();
            assert(rows.drop_last() =~= old(self).forges().rows());
            assert forall|i: int| 0 <= i < keys.len() implies #[trigger] keys[i] == forge_key(
                rows[i].url@,
            ) by {
                if i < keys.len() - 1 {
                    assert(keys[i] == old(self).forges().keys()[i]);
                }
            }
            assert forall|i: int| 0 <= i < self.users().keys().len() implies self.forges().has(
                forge_key(self.users().rows()[i].url@),
            ) by {
                let k = forge_key(self.users().rows()[i].url@);
                assert(old(self).users().keys()[i] == old(self).users().keys()[i]);
                let j = old(self).forges().keys().index_of(k);
                assert(old(self).forges().keys().contains(k));
                assert(keys[j] == k);
            }
        }
        Ok(())
    }

    /// get forge instance data
    pub fn get_forge(&self, url: &Url) -> (r: DBResult<Forge>)
        requires
            self.wf(),
        ensures
            match r {
                Ok(forge) => self.forges().has(forge_key(url@.origin)) && forge
                    == self.forges().row(forge_key(url@.origin)),
                Err(DBError::DBError(_)) => !self.forges().has(forge_key(url@.origin)),
                Err(_) => false,
            },
    {
        match self.forges.find(&key1(url.origin())) {
            Some(i) => Ok(self.forges.get(i).clone()),
            None => Err(DBError::DBError(owned("no such forge"))),
        }
    }

    fn index_word(&mut self, word: &str)
        requires
            old(self).wf(),
        ensures
            final(self).wf(),
            final(self).words().keys() == indexed(old(self).words().keys(), word@),
            final(self).forges() == old(self).forges(),
            final(self).users() == old(self).users(),
            final(self).repositories() == old(self).repositories(),
            final(self).introduced() == old(self).introduced(),
            final(self).challenges() == old(self).challenges(),
            final(self).imported_words() == old(self).imported_words(),
    {
        self.words.insert(key1(word), ());
    }

    /// add new user to database: the user is added under the URL of
    /// their forge and their username, and the username is indexed. A
    /// user whose forge the store lacks, or who is there already, is
    /// refused, and nothing changes.
    pub fn add_user(&mut self, u: &AddUser) -> (r: DBResult<()>)
        requires
            old(self).wf(),
        ensures
            final(self).wf(),
            match r {
                Ok(_) => {
                    &&& old(self).forges().has(forge_key(u.url@.origin))
                    &&& !old(self).users().has(user_key(u.url@.origin, u.username@))
                    &&& final(self).users().keys() == old(self).users().keys().push(
                        user_key(u.url@.origin, u.username@),
                    )
                    &&& final(self).users().rows().len() == old(self).users().rows().len() + 1
                    &&& final(self).users().rows().drop_last() == old(self).users().rows()
                    &&& user_made(final(self).users().rows().last(), *u)
                    &&& final(self).words().keys() == indexed(old(self).words().keys(), u.username@)
                    &&& final(self).same_but_users_and_words(old(self))
                },
                Err(DBError::DuplicateUserLink) => {
                    &&& old(self).users().has(user_key(u.url@.origin, u.username@))
                    &&& *final(self) == *old(self)
                },
                Err(DBError::DBError(_)) => {
                    &&& !old(self).forges().has(forge_key(u.url@.origin))
                    &&& *final(self) == *old(self)
                },
                Err(_) => false,
            },
    {
        if !self.forges.contains(&key1(u.url.origin())) {
            return Err(DBError::DBError(owned("no such forge")));
        }
        let key = key2(u.url.origin(), u.username);
        if self.users.contains(&key) {
            return Err(DBError::DuplicateUserLink);
        }
        let row = User {
            url: owned(u.url.origin()),
            username: owned(u.username),
            html_link: owned(u.html_link),
            profile_photo: owned_opt(u.profile_photo),
            import: u.import,
        };
        proof {
            old(self).users().lemma_len();
        }
        self.users.insert(key, row);
        proof {
            let keys = self.users().keys();
            let rows = self.users().rows();
            assert(rows.drop_last() =~= old(self).users().rows());
            assert forall|i: int| 0 <= i < keys.len() implies #[trigger] keys[i] == user_key(
                rows[i].url@,
                rows[i].username@,
            ) && self.forges().has(forge_key(rows[i].url@)) by {
                if i < keys.len() - 1 {
                    assert(keys[i] == old(self).users().keys()[i]);
                }
            }
            assert forall|i: int|
                0 <= i < self.repositories().keys().len() implies self.users().has(
                user_key(self.repositories().rows()[i].url@, self.repositories().rows()[i].username@),
            ) by {
                let row = self.repositories().rows()[i];
                let k = user_key(row.url@, row.username@);
                assert(old(self).repositories().keys()[i] == old(self).repositories().keys()[i]);
                assert(old(self).users().keys().contains(k));
                let j = old(self).users().keys().index_of(k);
                assert(keys[j] == k);
            }
        }
        self.index_word(u.username);
        Ok(())
    }

    /// get user data
    pub fn get_user(&self, username: &str, url: &Url) -> (r: DBResult<User>)
        requires
            self.wf(),
        ensures
            match r {
                Ok(user) => self.users().has(user_key(url@.origin, username@)) && user
                    == self.users().row(user_key(url@.origin, username@)),
                Err(DBError::DBError(_)) => !self.users().has(user_key(url@.origin, username@)),
                Err(_) => false,
            },
    {
        match self.users.find(&key2(url.origin(), username)) {
            Some(i) => Ok(self.users.get(i).clone()),
            None => Err(DBError::DBError(owned("no such user"))),
        }
    }

    /// Whether some forge has a user of this name.
    pub open spec fn has_username(&self, username: Seq<char>) -> bool {
        exists|i: int|
            0 <= i < self.users().rows().len() && (#[trigger] self.users().rows()[i]).username@
                == username
    }

    /// check if an user exists. When url of a forge instance is provided,
    /// username search is done only on that forge
    pub fn user_exists(&self, username: &str, url: Option<&Url>) -> (r: DBResult<bool>)
        requires
            self.wf(),
        ensures
            r matches Ok(b) && b == match url {
                Some(url) => self.users().has(user_key(url@.origin, username@)),
                None => self.has_username(username@),
            },
    {
        match url {
            Some(url) => Ok(self.users.contains(&key2(url.origin(), username))),
            None => {
                let mut i: usize = 0;
                while i < self.users.len()
                    invariant
                        self.wf(),
                        url is None,
                        i <= self.users().rows().len(),
                        forall|k: int|
                            0 <= k < i ==> (#[trigger] self.users().rows()[k]).username@
                                != username@,
                    decreases self.users().rows().len() - i,
                {
                    if same(self.users.get(i).username.as_str(), username) {
                        assert(self.users().rows()[i as int].username@ == username@);
                        return Ok(true);
                    }
                    i = i + 1;
                }
                Ok(false)
            },
        }
    }

    /// check if a repository exists.
    pub fn repository_exists(&self, name: &str, owner: &str, url: &Url) -> (r: DBResult<bool>)
        requires
            self.wf(),
        ensures
            r matches Ok(b) && b == self.repositories().has(repo_key(url@.origin, owner@, name@)),
    {
        Ok(self.repositories.contains(&key3(url.origin(), owner, name)))
    }

    fn index_words(&mut self, words: &Vec<&str>)
        requires
            old(self).wf(),
        ensures
            final(self).wf(),
            final(self).words().keys() == indexed_all(
                old(self).words().keys(),
                Seq::new(words@.len(), |i: int| words@[i]@),
            ),
            final(self).forges() == old(self).forges(),
            final(self).users() == old(self).users(),
            final(self).repositories() == old(self).repositories(),
            final(self).introduced() == old(self).introduced(),
            final(self).challenges() == old(self).challenges(),
            final(self).imported_words() == old(self).imported_words(),
    {
        let ghost all = Seq::new(words@.len(), |i: int| words@[i]@);
        let mut i: usize = 0;
        assert(all.take(0) =~= Seq::<Seq<char>>::empty());
        while i < words.len()
            invariant
                self.wf(),
                i <= words.len(),
                all == Seq::new(words@.len(), |i: int| words@[i]@),
                self.words().keys() == indexed_all(old(self).words().keys(), all.take(i as int)),
                self.forges() == old(self).forges(),
                self.users() == old(self).users(),
                self.repositories() == old(self).repositories(),
                self.introduced() == old(self).introduced(),
                self.challenges() == old(self).challenges(),
                self.imported_words() == old(self).imported_words(),
            decreases words.len() - i,
        {
            assert(all.take(i + 1).drop_last() =~= all.take(i as int));
            assert(all.take(i + 1).last() == words@[i as int]@);
            self.index_word(words[i]);
            i = i + 1;
        }
        assert(all.take(words.len() as int) =~= all);
    }

    /// add new repository to database: the repository is added under the
    /// URL of its forge, the username of its owner and its name, and its
    /// name and topic tags are indexed. A repository whose owner the
    /// store lacks, or which is there already, is refused, and nothing
    /// changes.
    pub fn create_repository(&mut self, r: &AddRepository) -> (res: DBResult<()>)
        requires
            old(self).wf(),
        ensures
            final(self).wf(),
            match res {
                Ok(_) => {
                    &&& old(self).users().has(user_key(r.url@.origin, r.owner@))
                    &&& !old(self).repositories().has(repo_key(r.url@.origin, r.owner@, r.name@))
                    &&& final(self).repositories().keys() == old(self).repositories().keys().push(
                        repo_key(r.url@.origin, r.owner@, r.name@),
                    )
                    &&& final(self).repositories().rows().len() == old(self).repositories().rows().len() + 1
                    &&& final(self).repositories().rows().drop_last() == old(self).repositories().rows()
                    &&& repository_made(final(self).repositories().rows().last(), *r)
                    &&& final(self).words().keys() == indexed_all(
                        old(self).words().keys(),
                        repository_words(*r),
                    )
                    &&& final(self).same_but_repositories_and_words(old(self))
                },
                Err(DBError::DuplicateRepositoryLink) => {
                    &&& old(self).repositories().has(repo_key(r.url@.origin, r.owner@, r.name@))
                    &&& *final(self) == *old(self)
                },
                Err(DBError::DBError(_)) => {
                    &&& !old(self).users().has(user_key(r.url@.origin, r.owner@))
                    &&& *final(self) == *old(self)
                },
                Err(_) => false,
            },
    {
        if !self.users.contains(&key2(r.url.origin(), r.owner)) {
            return Err(DBError::DBError(owned("no such user")));
        }
        let key = key3(r.url.origin(), r.owner, r.name);
        if self.repositories.contains(&key) {
            return Err(DBError::DuplicateRepositoryLink);
        }
        let row = Repository {
            html_url: owned(r.html_link),
            tags: match &r.tags {
                Some(t) => Some(owned_all(t)),
                None => None,
            },
            url: owned(r.url.origin()),
            name: owned(r.name),
            username: owned(r.owner),
            description: owned_opt(r.description),
            website: owned_opt(r.website),
            import: r.import,
        };
        proof {
            old(self).repositories().lemma_len();
        }
        self.repositories.insert(key, row);
        proof {
            let keys = self.repositories().keys();
            let rows = self.repositories().rows();
            assert(rows.drop_last() =~= old(self).repositories().rows());
            assert forall|i: int| 0 <= i < keys.len() implies #[trigger] keys[i] == repo_key(
                rows[i].url@,
                rows[i].username@,
                rows[i].name@,
            ) && self.users().has(user_key(rows[i].url@, rows[i].username@)) by {
                if i < keys.len() - 1 {
                    assert(keys[i] == old(self).repositories().keys()[i]);
                }
            }
        }
        let mut words: Vec<&str> = Vec::new();
        words.push(r.name);
        match &r.tags {
            Some(t) => {
                let mut i: usize = 0;
                while i < t.len()
                    invariant
                        i <= t.len(),
                        words@.len() == i + 1,
                        words@[0]@ == r.name@,
                        forall|k: int| 0 <= k < i ==> words@[k + 1]@ == t@[k]@,
                    decreases t.len() - i,
                {
                    words.push(t[i]);
                    i = i + 1;
                }
            },
            None => {},
        }
        assert(Seq::new(words@.len(), |i: int| words@[i]@) =~= repository_words(*r));
        self.index_words(&words);
        Ok(())
    }

    /// Get all forges: one page of the forges, in the order in which they
    /// were created; with `with_imports`, of all forges, else of those
    /// that were crawled here.
    pub fn get_all_forges(&self, with_imports: bool, offset: u32, limit: u32) -> (r: DBResult<
        Vec<Forge>,
    >)
        requires
            self.wf(),
        ensures
            r matches Ok(forges) && forges@ == page_of(
                shown(self.forges().rows(), with_imports),
                offset as int,
                limit as int,
            ),
    {
        let ghost rows = self.forges().rows();
        let mut list: Vec<Forge> = Vec::new();
        let mut i: usize = 0;
        proof {
            reveal(Seq::filter);
            assert(rows.take(0) =~= Seq::<Forge>::empty());
        }
        while i < self.forges.len()
            invariant
                self.wf(),
                rows == self.forges().rows(),
                i <= rows.len(),
                list@ == shown(rows.take(i as int), with_imports),
            decreases rows.len() - i,
        {
            let row = self.forges.get(i);
            proof {
                reveal(Seq::filter);
                assert(rows.take(i + 1).drop_last() =~= rows.take(i as int));
                assert(rows.take(i + 1).last() == rows[i as int]);
                assert(rows.take(i + 1) =~= rows.take(i as int).push(rows[i as int]));
            }
            if with_imports || !row.imported {
                list.push(row.clone());
            }
            i = i + 1;
        }
        assert(rows.take(rows.len() as int) =~= rows);
        let (from, to) = page_bounds(list.len(), offset, limit);
        let mut r: Vec<Forge> = Vec::new();
        let mut j: usize = from;
        while j < to
            invariant
                from <= j <= to <= list.len(),
                r@ == list@.subrange(from as int, j as int),
            decreases to - j,
        {
            r.push(list[j].clone());
            assert(list@.subrange(from as int, j + 1) =~= list@.subrange(from as int, j as int).push(
                list@[j as int],
            ));
            j = j + 1;
        }
        Ok(r)
    }

    /// Get all repositories: one page of the repositories, in the order
    /// in which they were created.
    pub fn get_all_repositories(&self, offset: u32, limit: u32) -> (r: DBResult<Vec<Repository>>)
        requires
            self.wf(),
        ensures
            r matches Ok(repos) && {
                let page = page_of(self.repositories().rows(), offset as int, limit as int);
                &&& repos@.len() == page.len()
                &&& forall|i: int| 0 <= i < page.len() ==> (#[trigger] repos@[i]).same_as(&page[i])
            },
    {
        let (from, to) = page_bounds(self.repositories.len(), offset, limit);
        let mut r: Vec<Repository> = Vec::new();
        let mut j: usize = from;
        while j < to
            invariant
                self.wf(),
                from <= j <= to <= self.repositories().rows().len(),
                r@.len() == j - from,
                forall|i: int|
                    0 <= i < j - from ==> (#[trigger] r@[i]).same_as(
                        &self.repositories().rows()[from + i],
                    ),
            decreases to - j,
        {
            r.push(self.repositories.get(j).clone());
            j = j + 1;
        }
        Ok(r)
    }

    /// delete repository: the repository leaves the store, if it is there.
    pub fn delete_repository(&mut self, owner: &str, name: &str, url: &Url) -> (r: DBResult<()>)
        requires
            old(self).wf(),
        ensures
            final(self).wf(),
            r is Ok,
            !final(self).repositories().has(repo_key(url@.origin, owner@, name@)),
            forall|k: KeyView|
                k != repo_key(url@.origin, owner@, name@) ==> (final(self).repositories().has(k)
                    <==> old(self).repositories().has(k)),
            final(self).same_but_repositories_and_words(old(self)),
            final(self).words() == old(self).words(),
    {
        let key = key3(url.origin(), owner, name);
        let ghost k0 = repo_key(url@.origin, owner@, name@);
        let ghost before = self.repositories().keys();
        let ghost rows_before = self.repositories().rows();
        proof {
            old(self).repositories().lemma_len();
        }
        let removed = self.repositories.remove(&key);
        proof {
            let after = self.repositories().keys();
            let rows = self.repositories().rows();
            if removed is Some {
                let at = before.index_of(k0);
                assert(before.contains(k0));
                assert(after == before.remove(at));
                assert(rows == rows_before.remove(at));
                assert forall|i: int| 0 <= i < after.len() implies #[trigger] after[i] == repo_key(
                    rows[i].url@,
                    rows[i].username@,
                    rows[i].name@,
                ) && self.users().has(user_key(rows[i].url@, rows[i].username@)) by {
                    let i0 = if i < at { i } else { i + 1 };
                    assert(after[i] == before[i0]);
                    assert(rows[i] == rows_before[i0]);
                }
                assert forall|k: KeyView| k != k0 implies (after.contains(k) <==> before.contains(
                    k,
                )) by {
                    if after.contains(k) {
                        let i = after.index_of(k);
                        let i0 = if i < at { i } else { i + 1 };
                        assert(before[i0] == k);
                    }
                    if before.contains(k) {
                        let i0 = before.index_of(k);
                        let i = if i0 < at { i0 } else { i0 - 1 };
                        assert(after[i] == k);
                    }
                }
            }
        }
        Ok(())
    }

    /// Add Starchart instance to introducer: the peer is known from now
    /// on. Adding a peer that is known changes nothing.
    pub fn add_starchart_to_introducer(&mut self, url: &Url) -> (r: DBResult<()>)
        requires
            old(self).wf(),
        ensures
            final(self).wf(),
            r is Ok,
            final(self).introduced().keys() == (if old(self).introduced().has(seq![url@.href]) {
                old(self).introduced().keys()
            } else {
                old(self).introduced().keys().push(seq![url@.href])
            }),
            final(self).same_but_introduced(old(self)),
    {
        let row = Starchart { instance_url: owned(url.as_str()) };
        proof {
            old(self).introduced().lemma_len();
        }
        let added = self.introduced.insert(key1(url.as_str()), row);
        proof {
            let keys = self.introduced().keys();
            let rows = self.introduced().rows();
            if added {
                assert forall|i: int| 0 <= i < keys.len() implies #[trigger] keys[i]
                    == seq![rows[i].instance_url@] by {
                    if i < keys.len() - 1 {
                        assert(keys[i] == old(self).introduced().keys()[i]);
                    }
                }
            }
        }
        Ok(())
    }

    /// Whether the peer at `href` is known.
    pub fn is_starchart_introduced(&self, url: &Url) -> (r: bool)
        requires
            self.wf(),
        ensures
            r == self.introduced().has(seq![url@.href]),
    {
        self.introduced.contains(&key1(url.as_str()))
    }

    /// Get all introduced Starchart instances: one page of the known
    /// peers, in the order in which they were added.
    pub fn get_all_introduced_starchart_instances(&self, offset: u32, limit: u32) -> (r: DBResult<
        Vec<Starchart>,
    >)
        requires
            self.wf(),
        ensures
            r matches Ok(peers) && peers@ == page_of(
                self.introduced().rows(),
                offset as int,
                limit as int,
            ),
    {
        let (from, to) = page_bounds(self.introduced.len(), offset, limit);
        let ghost rows = self.introduced().rows();
        let mut r: Vec<Starchart> = Vec::new();
        let mut j: usize = from;
        while j < to
            invariant
                self.wf(),
                rows == self.introduced().rows(),
                from <= j <= to <= rows.len(),
                r@ == rows.subrange(from as int, j as int),
            decreases to - j,
        {
            r.push(self.introduced.get(j).clone());
            assert(rows.subrange(from as int, j + 1) =~= rows.subrange(from as int, j as int).push(
                rows[j as int],
            ));
            j = j + 1;
        }
        Ok(r)
    }

    /// Add word to mini index: the word is added at the end unless it is
    /// there. Words are told apart by case.
    pub fn add_word_to_mini_index(&mut self, word: &str) -> (r: DBResult<()>)
        requires
            old(self).wf(),
        ensures
            final(self).wf(),
            r is Ok,
            final(self).words().keys() == indexed(old(self).words().keys(), word@),
            final(self).same_but_words(old(self)),
    {
        self.index_word(word);
        Ok(())
    }

    /// Remove word from mini index: the word leaves the index, if it is
    /// there; the other words keep their order.
    pub fn rm_word_from_mini_index(&mut self, word: &str) -> (r: DBResult<()>)
        requires
            old(self).wf(),
        ensures
            final(self).wf(),
            r is Ok,
            final(self).words().keys() == without(old(self).words().keys(), seq![word@]),
            !final(self).words().has(seq![word@]),
            final(self).same_but_words(old(self)),
    {
        let ghost before = self.words().keys();
        let removed = self.words.remove(&key1(word));
        proof {
            let after = self.words().keys();
            if removed is Some {
                let at = before.index_of(seq![word@]);
                assert(before.contains(seq![word@]));
                assert(after == before.remove(at));
                assert forall|i: int| 0 <= i < after.len() implies (#[trigger] after[i]).len()
                    == 1 by {
                    let i0 = if i < at { i } else { i + 1 };
                    assert(after[i] == before[i0]);
                }
            }
        }
        Ok(())
    }

    /// Check if a word is in the mini index.
    pub fn is_word_mini_indexed(&self, word: &str) -> (r: DBResult<bool>)
        requires
            self.wf(),
        ensures
            r matches Ok(b) && b == self.words().has(seq![word@]),
    {
        Ok(self.words.contains(&key1(word)))
    }

    /// Export mini index: the words in the order in which they were
    /// added, each once, with one space between each two.
    pub fn export_mini_index(&self) -> (r: DBResult<String>)
        requires
            self.wf(),
        ensures
            r matches Ok(text) && text@ == joined(words_of(self.words().keys()), seq![' ']),
    {
        let ghost keys = self.words().keys();
        let mut words: Vec<String> = Vec::new();
        let mut i: usize = 0;
        while i < self.words.len()
            invariant
                self.wf(),
                keys == self.words().keys(),
                i <= keys.len(),
                words@.len() == i,
                forall|k: int| 0 <= k < i ==> (#[trigger] words@[k])@ == keys[k][0],
            decreases keys.len() - i,
        {
            let key = self.words.key_at(i);
            assert(keys[i as int].len() == 1);
            assert(texts(key@)[0] == key@[0]@);
            words.push(key[0].clone());
            i = i + 1;
        }
        proof {
            reveal_strlit(" ");
        }
        assert(" "@ =~= seq![' ']);
        assert(texts(words@) =~= words_of(keys));
        Ok(join(&words, " "))
    }

    /// Import mini index: the mini-index of the peer takes the place of
    /// the one that was imported from that peer before, if any.
    pub fn import_mini_index(&mut self, starchart_url: &Url, mini_index: &str) -> (r: DBResult<()>)
        requires
            old(self).wf(),
        ensures
            final(self).wf(),
            r is Ok,
            final(self).imported_words().has(seq![starchart_url@.href]),
            final(self).imported_words().row(seq![starchart_url@.href])@ == mini_index@,
            forall|k: KeyView|
                k != seq![starchart_url@.href] ==> (final(self).imported_words().has(k) <==> old(self).imported_words().has(k)) && (old(self).imported_words().has(k) ==> final(self).imported_words().row(k) == old(self).imported_words().row(k)),
            final(self).same_but_imported_words(old(self)),
    {
        let key = key1(starchart_url.as_str());
        let ghost k0 = seq![starchart_url@.href];
        let ghost before = self.imported_words;
        proof {
            before.lemma_len();
        }
        match self.imported_words.find(&key) {
            Some(i) => {
                self.imported_words.replace(i, owned(mini_index));
                proof {
                    let after = self.imported_words;
                    assert(after.keys() == before.keys());
                    assert forall|k: KeyView| k != k0 && before.has(k) implies after.row(k)
                        == before.row(k) by {
                        let j = before.keys().index_of(k);
                        assert(before.keys()[j] == k);
                    }
                }
            },
            None => {
                self.imported_words.insert(key, owned(mini_index));
                proof {
                    let after = self.imported_words;
                    let n = before.keys().len() as int;
                    assert(after.keys() == before.keys().push(k0));
                    assert(after.keys()[n] == k0);
                    after.lemma_position(n);
                    assert forall|k: KeyView| k != k0 implies (after.has(k) <==> before.has(k)) && (
                    before.has(k) ==> after.row(k) == before.row(k)) by {
                        if before.has(k) {
                            let j = before.keys().index_of(k);
                            assert(after.keys()[j] == k);
                            after.lemma_position(j);
                        }
                        if after.has(k) {
                            let j = after.keys().index_of(k);
                            assert(before.keys()[j] == k);
                        }
                    }
                    assert forall|i: int| 0 <= i < after.keys().len() implies (
                    #[trigger] after.keys()[i]).len() == 1 by {
                        if i < n {
                            assert(after.keys()[i] == before.keys()[i]);
                        }
                    }
                }
            },
        }
        Ok(())
    }

    /// Remove imported mini index: what was imported from the peer leaves
    /// the store; what was imported from other peers stays.
    pub fn rm_imported_mini_index(&mut self, starchart_url: &Url) -> (r: DBResult<()>)
        requires
            old(self).wf(),
        ensures
            final(self).wf(),
            r is Ok,
            !final(self).imported_words().has(seq![starchart_url@.href]),
            final(self).imported_words().keys() == without(
                old(self).imported_words().keys(),
                seq![starchart_url@.href],
            ),
            final(self).same_but_imported_words(old(self)),
    {
        let ghost before = self.imported_words().keys();
        let removed = self.imported_words.remove(&key1(starchart_url.as_str()));
        proof {
            let after = self.imported_words().keys();
            if removed is Some {
                let at = before.index_of(seq![starchart_url@.href]);
                assert(before.contains(seq![starchart_url@.href]));
                assert(after == before.remove(at));
                assert forall|i: int| 0 <= i < after.len() implies (#[trigger] after[i]).len()
                    == 1 by {
                    let i0 = if i < at { i } else { i + 1 };
                    assert(after[i] == before[i0]);
                }
            }
        }
        Ok(())
    }

    /// Whether the mini-index imported from each peer, one by one, holds
    /// the core `core`.
    pub open spec fn index_flags(&self, core: Seq<char>) -> Seq<bool> {
        Seq::new(
            self.imported_words().rows().len(),
            |i: int| contains(self.imported_words().rows()[i]@, core),
        )
    }

    /// The peers that a search of the mini-indexes for the pattern `query`
    /// surfaces: those whose mini-index holds the core of the pattern, in
    /// the order in which their mini-indexes were first imported.
    pub open spec fn surfaced(&self, query: Seq<char>) -> Seq<Seq<char>> {
        let found = hits(self.index_flags(pattern_core(query)));
        Seq::new(found.len(), |j: int| self.imported_words().keys()[found[j]][0])
    }

    /// Whether `peers` are the peers that a search of the mini-indexes
    /// for the pattern `query` finds.
    pub open spec fn search_mini_index_spec(&self, query: Seq<char>, peers: Seq<Seq<char>>) -> bool {
        let found = hits(self.index_flags(pattern_core(query)));
        &&& peers.len() == found.len()
        &&& forall|j: int|
            0 <= j < found.len() ==> 0 <= #[trigger] found[j] < self.imported_words().keys().len()
        &&& forall|j: int|
            0 <= j < found.len() ==> #[trigger] peers[j] == self.imported_words().keys()[found[j]][0]
    }

    /// Whether `repos` are the repositories that a search for the pattern
    /// `query` finds.
    pub open spec fn search_repository_spec(&self, query: Seq<char>, repos: Seq<Repository>) -> bool {
        let found = hits(self.repository_flags(pattern_core(query)));
        &&& repos.len() == found.len()
        &&& forall|j: int|
            0 <= j < found.len() ==> 0 <= #[trigger] found[j] < self.repositories().rows().len()
        &&& forall|j: int|
            0 <= j < found.len() ==> (#[trigger] repos[j]).same_as(
                &self.repositories().rows()[found[j]],
            )
    }

    /// Search mini index: the peers, in the order in which their
    /// mini-indexes were first imported, whose mini-index holds the core
    /// of the pattern `query`.
    pub fn search_mini_index(&self, query: &str) -> (r: DBResult<Vec<String>>)
        requires
            self.wf(),
        ensures
            r matches Ok(peers) && self.search_mini_index_spec(query@, texts(peers@)) && texts(
                peers@,
            ) == self.surfaced(query@),
    {
        let core = core_of(query);
        let ghost flags = self.index_flags(core@);
        let ghost keys = self.imported_words().keys();
        let mut peers: Vec<String> = Vec::new();
        let mut i: usize = 0;
        proof {
            self.imported_words().lemma_len();
            assert(flags.take(0) =~= Seq::<bool>::empty());
        }
        while i < self.imported_words.len()
            invariant
                self.wf(),
                flags == self.index_flags(core@),
                keys == self.imported_words().keys(),
                keys.len() == flags.len(),
                i <= flags.len(),
                peers@.len() == hits(flags.take(i as int)).len(),
                forall|j: int|
                    0 <= j < peers@.len() ==> (#[trigger] peers@[j])@ == keys[hits(
                        flags.take(i as int),
                    )[j]][0],
            decreases flags.len() - i,
        {
            proof {
                assert(flags.take(i + 1).drop_last() =~= flags.take(i as int));
                assert(flags.take(i + 1).last() == flags[i as int]);
            }
            let ghost found = hits(flags.take(i as int));
            let ghost peers_before = peers@;
            if has(self.imported_words.get(i).as_str(), core.as_str()) {
                let key = self.imported_words.key_at(i);
                assert(keys[i as int].len() == 1);
                assert(texts(key@)[0] == key@[0]@);
                peers.push(key[0].clone());
            }
            proof {
                let next = hits(flags.take(i + 1));
                assert forall|j: int| 0 <= j < peers@.len() implies (#[trigger] peers@[j])@
                    == keys[next[j]][0] by {
                    if j < found.len() {
                        assert(next[j] == found[j]);
                        assert(peers@[j] == peers_before[j]);
                    }
                }
            }
            i = i + 1;
        }
        proof {
            assert(flags.take(flags.len() as int) =~= flags);
            lemma_hits(flags);
            assert(texts(peers@) =~= self.surfaced(query@));
        }
        Ok(peers)
    }

    /// Whether the repositories, one by one, match a pattern with the
    /// core `core`.
    pub open spec fn repository_flags(&self, core: Seq<char>) -> Seq<bool> {
        Seq::new(
            self.repositories().rows().len(),
            |i: int| repository_matches(self.repositories().rows()[i], core),
        )
    }

    /// Search all repositories: the repositories, in the order in which
    /// they were created, that match the pattern `query`.
    pub fn search_repository(&self, query: &str) -> (r: DBResult<Vec<Repository>>)
        requires
            self.wf(),
        ensures
            r matches Ok(repos) && self.search_repository_spec(query@, repos@),
    {
        let core = core_of(query);
        let ghost flags = self.repository_flags(core@);
        let ghost rows = self.repositories().rows();
        let mut repos: Vec<Repository> = Vec::new();
        let mut i: usize = 0;
        proof {
            assert(flags.take(0) =~= Seq::<bool>::empty());
        }
        while i < self.repositories.len()
            invariant
                self.wf(),
                flags == self.repository_flags(core@),
                rows == self.repositories().rows(),
                rows.len() == flags.len(),
                i <= flags.len(),
                repos@.len() == hits(flags.take(i as int)).len(),
                forall|j: int|
                    0 <= j < repos@.len() ==> (#[trigger] repos@[j]).same_as(
                        &rows[hits(flags.take(i as int))[j]],
                    ),
            decreases flags.len() - i,
        {
            proof {
                assert(flags.take(i + 1).drop_last() =~= flags.take(i as int));
                assert(flags.take(i + 1).last() == flags[i as int]);
            }
            let row = self.repositories.get(i);
            let c = core.as_str();
            let matched = has(row.name.as_str(), c) || (match &row.description {
                Some(d) => has(d.as_str(), c),
                None => false,
            }) || (match &row.website {
                Some(w) => has(w.as_str(), c),
                None => false,
            }) || has(row.html_url.as_str(), c);
            let ghost found = hits(flags.take(i as int));
            let ghost repos_before = repos@;
            if matched {
                repos.push(row.clone());
            }
            proof {
                let next = hits(flags.take(i + 1));
                assert forall|j: int| 0 <= j < repos@.len() implies (#[trigger] repos@[j]).same_as(
                    &rows[next[j]],
                ) by {
                    if j < found.len() {
                        assert(next[j] == found[j]);
                        assert(repos@[j] == repos_before[j]);
                    }
                }
            }
            i = i + 1;
        }
        proof {
            assert(flags.take(flags.len() as int) =~= flags);
            lemma_hits(flags);
        }
        Ok(repos)
    }

    /// Whether some forge of the store was learned from the peer at
    /// `origin`.
    pub open spec fn imported_from(&self, origin: Seq<char>) -> bool {
        exists|i: int|
            0 <= i < self.forges().rows().len() && (#[trigger] self.forges().rows()[i]).imported
                && opt_string(self.forges().rows()[i].starchart_url) == Some(origin)
    }

    /// Whether the forges of the peer at `url` are in the store, marked as
    /// learned from that peer.
    pub fn is_starchart_imported(&self, url: &Url) -> (r: DBResult<bool>)
        requires
            self.wf(),
        ensures
            r matches Ok(b) && b == self.imported_from(url@.origin),
    {
        let mut i: usize = 0;
        while i < self.forges.len()
            invariant
                self.wf(),
                i <= self.forges().rows().len(),
                forall|k: int|
                    0 <= k < i ==> !((#[trigger] self.forges().rows()[k]).imported && opt_string(
                        self.forges().rows()[k].starchart_url,
                    ) == Some(url@.origin)),
            decreases self.forges().rows().len() - i,
        {
            let row = self.forges.get(i);
            let from = match &row.starchart_url {
                Some(s) => same(s.as_str(), url.origin()),
                None => false,
            };
            if row.imported && from {
                assert(self.forges().rows()[i as int].imported);
                return Ok(true);
            }
            i = i + 1;
        }
        Ok(false)
    }

    /// check if a DNS challenge exists
    pub fn dns_challenge_exists(&self, key: &str) -> (r: DBResult<bool>)
        requires
            self.wf(),
        ensures
            r matches Ok(b) && b == self.challenges().has(seq![key@]),
    {
        Ok(self.challenges.contains(&key1(key)))
    }

    /// create DNS challenge: the challenge is kept under its key. Where a
    /// challenge stands under that key, nothing changes and the hostname
    /// is reported as taken.
    pub fn create_dns_challenge(&mut self, challenge: &Challenge) -> (r: DBResult<()>)
        requires
            old(self).wf(),
        ensures
            final(self).wf(),
            match r {
                Ok(_) => {
                    &&& !old(self).challenges().has(seq![challenge.key@])
                    &&& final(self).challenges().keys() == old(self).challenges().keys().push(
                        seq![challenge.key@],
                    )
                    &&& final(self).challenges().rows() == old(self).challenges().rows().push(
                        *challenge,
                    )
                    &&& final(self).same_but_challenges(old(self))
                },
                Err(DBError::DuplicateChallengeHostname) => {
                    &&& old(self).challenges().has(seq![challenge.key@])
                    &&& *final(self) == *old(self)
                },
                Err(_) => false,
            },
    {
        let key = key1(challenge.key.as_str());
        if self.challenges.contains(&key) {
            return Err(DBError::DuplicateChallengeHostname);
        }
        proof {
            old(self).challenges().lemma_len();
        }
        self.challenges.insert(key, challenge.clone());
        proof {
            let keys = self.challenges().keys();
            let rows = self.challenges().rows();
            assert forall|i: int| 0 <= i < keys.len() implies #[trigger] keys[i]
                == seq![rows[i].key@] by {
                if i < keys.len() - 1 {
                    assert(keys[i] == old(self).challenges().keys()[i]);
                }
            }
        }
        Ok(())
    }

    /// get DNS challenge
    pub fn get_dns_challenge(&self, key: &str) -> (r: DBResult<Challenge>)
        requires
            self.wf(),
        ensures
            match r {
                Ok(c) => self.challenges().has(seq![key@]) && c == self.challenges().row(
                    seq![key@],
                ) && c.key@ == key@,
                Err(DBError::DBError(_)) => !self.challenges().has(seq![key@]),
                Err(_) => false,
            },
    {
        match self.challenges.find(&key1(key)) {
            Some(i) => {
                assert(self.challenges().keys()[i as int] == seq![
                    self.challenges().rows()[i as int].key@,
                ]);
                assert(seq![self.challenges().rows()[i as int].key@][0] == seq![key@][0]);
                Ok(self.challenges.get(i).clone())
            },
            None => Err(DBError::DBError(owned("no such challenge"))),
        }
    }

    /// delete DNS challenge: the challenge under `key` leaves the store,
    /// if it is there.
    pub fn delete_dns_challenge(&mut self, key: &str) -> (r: DBResult<()>)
        requires
            old(self).wf(),
        ensures
            final(self).wf(),
            r is Ok,
            !final(self).challenges().has(seq![key@]),
            final(self).challenges().keys() == without(old(self).challenges().keys(), seq![key@]),
            final(self).same_but_challenges(old(self)),
    {
        let ghost before = self.challenges().keys();
        let ghost rows_before = self.challenges().rows();
        proof {
            old(self).challenges().lemma_len();
        }
        let removed = self.challenges.remove(&key1(key));
        proof {
            let after = self.challenges().keys();
            let rows = self.challenges().rows();
            if removed is Some {
                let at = before.index_of(seq![key@]);
                assert forall|i: int| 0 <= i < after.len() implies #[trigger] after[i]
                    == seq![rows[i].key@] by {
                    let i0 = if i < at { i } else { i + 1 };
                    assert(after[i] == before[i0]);
                    assert(rows[i] == rows_before[i0]);
                }
            }
        }
        Ok(())
    }

    /// delete user: the user leaves the store, if they are there, and
    /// with them their repositories; the other rows keep their order.
    pub fn delete_user(&mut self, username: &str, url: &Url) -> (r: DBResult<()>)
        requires
            old(self).wf(),
        ensures
            final(self).wf(),
            r is Ok,
            ({
                let prefix = user_key(url@.origin, username@);
                &&& final(self).users().keys() == kept(
                    old(self).users().keys(),
                    outside(old(self).users().keys(), prefix),
                )
                &&& final(self).users().rows() == kept(
                    old(self).users().rows(),
                    outside(old(self).users().keys(), prefix),
                )
                &&& final(self).repositories().keys() == kept(
                    old(self).repositories().keys(),
                    outside(old(self).repositories().keys(), prefix),
                )
                &&& final(self).repositories().rows() == kept(
                    old(self).repositories().rows(),
                    outside(old(self).repositories().keys(), prefix),
                )
                &&& !final(self).users().has(prefix)
            }),
            final(self).forges() == old(self).forges(),
            final(self).introduced() == old(self).introduced(),
            final(self).challenges() == old(self).challenges(),
            final(self).words() == old(self).words(),
            final(self).imported_words() == old(self).imported_words(),
    {
        let prefix = key2(url.origin(), username);
        let ghost p = user_key(url@.origin, username@);
        self.users.remove_under(&prefix);
        self.repositories.remove_under(&prefix);
        proof {
            old(self).users().lemma_dropped(&self.users(), p);
            old(self).repositories().lemma_dropped(&self.repositories(), p);
            self.users().lemma_len();
            self.repositories().lemma_len();
            self.forges().lemma_len();
            old(self).users().lemma_len();
            old(self).repositories().lemma_len();
            old(self).forges().lemma_len();
            assert(under(p, p)) by {
                assert(p.take(p.len() as int) =~= p);
            }
            assert forall|i: int| 0 <= i < self.users().keys().len() implies {
                let row = self.users().rows()[i];
                &&& #[trigger] self.users().keys()[i] == user_key(row.url@, row.username@)
                &&& self.forges().has(forge_key(row.url@))
            } by {
                let i0 = choose|i0: int|
                    0 <= i0 < old(self).users().keys().len() && #[trigger] old(self).users().keys()[i0]
                        == self.users().keys()[i] && old(self).users().rows()[i0]
                        == self.users().rows()[i];
            }
            assert forall|i: int| 0 <= i < self.repositories().keys().len() implies {
                let row = self.repositories().rows()[i];
                &&& #[trigger] self.repositories().keys()[i] == repo_key(
                    row.url@,
                    row.username@,
                    row.name@,
                )
                &&& self.users().has(user_key(row.url@, row.username@))
            } by {
                let row = self.repositories().rows()[i];
                let k = self.repositories().keys()[i];
                let i0 = choose|i0: int|
                    0 <= i0 < old(self).repositories().keys().len() && #[trigger] old(self).repositories().keys()[i0] == k && old(self).repositories().rows()[i0] == row;
                assert(self.repositories().keys()[i] == k);
                assert(self.repositories().has(k));
                assert(!under(k, p));
                let owner = user_key(row.url@, row.username@);
                assert(k.take(2) =~= owner);
                assert(owner != p);
                assert(!under(owner, p)) by {
                    assert(owner.take(2) =~= owner);
                }
            }
        }
        Ok(())
    }

    /// delete forge instance: the forge leaves the store, if it is there,
    /// and with it its users and its repositories; the other rows keep
    /// their order.
    pub fn delete_forge_instance(&mut self, url: &Url) -> (r: DBResult<()>)
        requires
            old(self).wf(),
        ensures
            final(self).wf(),
            r is Ok,
            ({
                let prefix = forge_key(url@.origin);
                &&& final(self).forges().keys() == kept(
                    old(self).forges().keys(),
                    outside(old(self).forges().keys(), prefix),
                )
                &&& final(self).forges().rows() == kept(
                    old(self).forges().rows(),
                    outside(old(self).forges().keys(), prefix),
                )
                &&& final(self).users().keys() == kept(
                    old(self).users().keys(),
                    outside(old(self).users().keys(), prefix),
                )
                &&& final(self).users().rows() == kept(
                    old(self).users().rows(),
                    outside(old(self).users().keys(), prefix),
                )
                &&& final(self).repositories().keys() == kept(
                    old(self).repositories().keys(),
                    outside(old(self).repositories().keys(), prefix),
                )
                &&& final(self).repositories().rows() == kept(
                    old(self).repositories().rows(),
                    outside(old(self).repositories().keys(), prefix),
                )
                &&& !final(self).forges().has(prefix)
            }),
            final(self).introduced() == old(self).introduced(),
            final(self).challenges() == old(self).challenges(),
            final(self).words() == old(self).words(),
            final(self).imported_words() == old(self).imported_words(),
    {
        let prefix = key1(url.origin());
        let ghost p = forge_key(url@.origin);
        self.forges.remove_under(&prefix);
        self.users.remove_under(&prefix);
        self.repositories.remove_under(&prefix);
        proof {
            old(self).forges().lemma_dropped(&self.forges(), p);
            old(self).users().lemma_dropped(&self.users(), p);
            old(self).repositories().lemma_dropped(&self.repositories(), p);
            self.users().lemma_len();
            self.repositories().lemma_len();
            self.forges().lemma_len();
            old(self).users().lemma_len();
            old(self).repositories().lemma_len();
            old(self).forges().lemma_len();
            assert(under(p, p)) by {
                assert(p.take(p.len() as int) =~= p);
            }
            assert forall|i: int| 0 <= i < self.forges().keys().len() implies #[trigger] self.forges().keys()[i]
                == forge_key(self.forges().rows()[i].url@) by {
                let i0 = choose|i0: int|
                    0 <= i0 < old(self).forges().keys().len() && #[trigger] old(self).forges().keys()[i0] == self.forges().keys()[i] && old(self).forges().rows()[i0] == self.forges().rows()[i];
            }
            assert forall|i: int| 0 <= i < self.users().keys().len() implies {
                let row = self.users().rows()[i];
                &&& #[trigger] self.users().keys()[i] == user_key(row.url@, row.username@)
                &&& self.forges().has(forge_key(row.url@))
            } by {
                let row = self.users().rows()[i];
                let k = self.users().keys()[i];
                let i0 = choose|i0: int|
                    0 <= i0 < old(self).users().keys().len() && #[trigger] old(self).users().keys()[i0]
                        == k && old(self).users().rows()[i0] == row;
                assert(self.users().keys()[i] == k);
                assert(self.users().has(k));
                assert(!under(k, p));
                let f = forge_key(row.url@);
                assert(k.take(1) =~= f);
                assert(!under(f, p)) by {
                    assert(f.take(1) =~= f);
                }
            }
            assert forall|i: int| 0 <= i < self.repositories().keys().len() implies {
                let row = self.repositories().rows()[i];
                &&& #[trigger] self.repositories().keys()[i] == repo_key(
                    row.url@,
                    row.username@,
                    row.name@,
                )
                &&& self.users().has(user_key(row.url@, row.username@))
            } by {
                let row = self.repositories().rows()[i];
                let k = self.repositories().keys()[i];
                let i0 = choose|i0: int|
                    0 <= i0 < old(self).repositories().keys().len() && #[trigger] old(self).repositories().keys()[i0] == k && old(self).repositories().rows()[i0] == row;
                assert(self.repositories().keys()[i] == k);
                assert(self.repositories().has(k));
                assert(!under(k, p));
                let owner = user_key(row.url@, row.username@);
                assert(k.take(1) =~= owner.take(1));
                assert(!under(owner, p));
            }
        }
        Ok(())
    }

    /// Whether the two stores differ in their known peers at most.
    pub open spec fn same_but_introduced(&self, other: &Database) -> bool {
        &&& self.forges() == other.forges()
        &&& self.users() == other.users()
        &&& self.repositories() == other.repositories()
        &&& self.challenges() == other.challenges()
        &&& self.words() == other.words()
        &&& self.imported_words() == other.imported_words()
    }

    /// Whether the two stores differ in their words at most.
    pub open spec fn same_but_words(&self, other: &Database) -> bool {
        &&& self.forges() == other.forges()
        &&& self.users() == other.users()
        &&& self.repositories() == other.repositories()
        &&& self.introduced() == other.introduced()
        &&& self.challenges() == other.challenges()
        &&& self.imported_words() == other.imported_words()
    }

    /// Whether the two stores differ in their imported mini-indexes at
    /// most.
    pub open spec fn same_but_imported_words(&self, other: &Database) -> bool {
        &&& self.forges() == other.forges()
        &&& self.users() == other.users()
        &&& self.repositories() == other.repositories()
        &&& self.introduced() == other.introduced()
        &&& self.challenges() == other.challenges()
        &&& self.words() == other.words()
    }

    /// Whether the two stores differ in their challenges at most.
    pub open spec fn same_but_challenges(&self, other: &Database) -> bool {
        &&& self.forges() == other.forges()
        &&& self.users() == other.users()
        &&& self.repositories() == other.repositories()
        &&& self.introduced() == other.introduced()
        &&& self.words() == other.words()
        &&& self.imported_words() == other.imported_words()
    }

    /// Whether the two stores differ in their users and words at most.
    pub open spec fn same_but_users_and_words(&self, other: &Database) -> bool {
        &&& self.forges() == other.forges()
        &&& self.repositories() == other.repositories()
        &&& self.introduced() == other.introduced()
        &&& self.challenges() == other.challenges()
        &&& self.imported_words() == other.imported_words()
    }

    /// Whether the two stores differ in their repositories and words at
    /// most.
    pub open spec fn same_but_repositories_and_words(&self, other: &Database) -> bool {
        &&& self.forges() == other.forges()
        &&& self.users() == other.users()
        &&& self.introduced() == other.introduced()
        &&& self.challenges() == other.challenges()
        &&& self.imported_words() == other.imported_words()
    }

    /// Whether the two stores differ in their forges at most.
    pub open spec fn same_but_forges(&self, other: &Database) -> bool {
        &&& self.users() == other.users()
        &&& self.repositories() == other.repositories()
        &&& self.introduced() == other.introduced()
        &&& self.challenges() == other.challenges()
        &&& self.words() == other.words()
        &&& self.imported_words() == other.imported_words()
    }
}

} // verus!

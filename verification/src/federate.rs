//! The federation export store: where each record lies in the export
//! directory, a copy of that directory held in memory, and the names of
//! its archives.

use vstd::prelude::*;
use vstd::string::*;
use crate::db::{AddRepository, AddUser, CreateForge};
use crate::table::{kept, key1, KeyView, Table};
use crate::text::{
    begins_with, chars_of, decimal, decimal_of, join2, join3, number, parse_number, same,
    starts_with, texts,
};
use crate::weburl::{get_hostname, Url};

verus! {

/// the file that describes a forge
pub const INSTANCE_INFO_FILE: &'static str = "instance.yml";

/// the file that describes a user
pub const USER_INFO_FILE: &'static str = "user.yml";

/// the file that describes a repository
pub const REPO_INFO_FILE: &'static str = "publiccode.yml";

/// the directory, below the base directory, that holds what is published
pub const CONTENTS_DIR: &'static str = "uncompressed";

/// The path `base` with `part` joined to it, as paths are joined on Unix:
/// an absolute `part` stands alone; else the two are put together with one
/// `/` between them, unless `base` is empty or ends in one.
pub open spec fn joined_path(base: Seq<char>, part: Seq<char>) -> Seq<char> {
    if part.len() > 0 && part[0] == '/' {
        part
    } else if base.len() == 0 || base.last() == '/' {
        base + part
    } else {
        base + seq!['/'] + part
    }
}

/// Joins `part` to the path `base`.
pub fn join_path(base: &str, part: &str) -> (r: String)
    ensures
        r@ == joined_path(base@, part@),
{
    let b = chars_of(base);
    let p = chars_of(part);
    if p.len() > 0 && p[0] == '/' {
        part.to_owned()
    } else if b.len() == 0 || b[b.len() - 1] == '/' {
        join2(base, part)
    } else {
        proof {
            reveal_strlit("/");
        }
        assert("/"@ =~= seq!['/']);
        join3(base, "/", part)
    }
}

/// No file that describes a user describes a repository: the names of the
/// two files differ.
pub proof fn lemma_user_file_is_no_repo_file(a: Seq<char>, b: Seq<char>)
    ensures
        joined_path(a, USER_INFO_FILE@) != joined_path(b, REPO_INFO_FILE@),
{
    reveal_strlit("user.yml");
    reveal_strlit("publiccode.yml");
    let u = USER_INFO_FILE@;
    let r = REPO_INFO_FILE@;
    let x = joined_path(a, u);
    let y = joined_path(b, r);
    assert(u.len() == 8 && u[3] == 'r');
    assert(r.len() == 14 && r[9] == 'e');
    assert(x[x.len() - 5] == 'r');
    assert(y[y.len() - 5] == 'e');
}

/// The federation export store as a directory tree below a base directory.
#[derive(Debug)]
pub struct PccFederate {
    /// the base directory
    pub base_dir: String,
}

impl PccFederate {
    /// The directory that holds what is published.
    pub open spec fn content_path(&self) -> Seq<char> {
        joined_path(self.base_dir@, CONTENTS_DIR@)
    }

    /// The directory of the forge on `host`.
    pub open spec fn instance_path(&self, host: Seq<char>) -> Seq<char> {
        joined_path(self.content_path(), host)
    }

    /// The directory of a user.
    pub open spec fn user_path(&self, host: Seq<char>, username: Seq<char>) -> Seq<char> {
        joined_path(self.instance_path(host), username)
    }

    /// The directory of a repository.
    pub open spec fn repo_path(
        &self,
        host: Seq<char>,
        owner: Seq<char>,
        name: Seq<char>,
    ) -> Seq<char> {
        joined_path(self.user_path(host, owner), name)
    }

    /// The file that describes the forge on `host`.
    pub open spec fn instance_file(&self, host: Seq<char>) -> Seq<char> {
        joined_path(self.instance_path(host), INSTANCE_INFO_FILE@)
    }

    /// The file that describes a user.
    pub open spec fn user_file(&self, host: Seq<char>, username: Seq<char>) -> Seq<char> {
        joined_path(self.user_path(host, username), USER_INFO_FILE@)
    }

    /// The file that describes a repository.
    pub open spec fn repo_file(
        &self,
        host: Seq<char>,
        owner: Seq<char>,
        name: Seq<char>,
    ) -> Seq<char> {
        joined_path(self.repo_path(host, owner, name), REPO_INFO_FILE@)
    }

    /// An export store below `base_dir`.
    pub fn new(base_dir: String) -> (r: Self)
        ensures
            r.base_dir == base_dir,
    {
        PccFederate { base_dir }
    }

    /// The directory that holds what is published.
    pub fn get_content_path(&self) -> (r: String)
        ensures
            r@ == self.content_path(),
    {
        join_path(self.base_dir.as_str(), CONTENTS_DIR)
    }

    /// The directory of the forge at `url`.
    pub fn get_instance_path(&self, url: &Url) -> (r: String)
        requires
            url@.host is Some,
        ensures
            r@ == self.instance_path(url@.host->0),
    {
        let content = self.get_content_path();
        join_path(content.as_str(), get_hostname(url))
    }

    /// The directory of the user `username` of the forge at `url`.
    pub fn get_user_path(&self, username: &str, url: &Url) -> (r: String)
        requires
            url@.host is Some,
        ensures
            r@ == self.user_path(url@.host->0, username@),
    {
        let instance = self.get_instance_path(url);
        join_path(instance.as_str(), username)
    }

    /// The directory of the repository `name` of `owner` on the forge at
    /// `url`.
    pub fn get_repo_path(&self, name: &str, owner: &str, url: &Url) -> (r: String)
        requires
            url@.host is Some,
        ensures
            r@ == self.repo_path(url@.host->0, owner@, name@),
    {
        let user = self.get_user_path(owner, url);
        join_path(user.as_str(), name)
    }

    /// The file that describes the forge at `url`.
    pub fn get_instance_file(&self, url: &Url) -> (r: String)
        requires
            url@.host is Some,
        ensures
            r@ == self.instance_file(url@.host->0),
    {
        let dir = self.get_instance_path(url);
        join_path(dir.as_str(), INSTANCE_INFO_FILE)
    }

    /// The file that describes the user `username` of the forge at `url`.
    pub fn get_user_file(&self, username: &str, url: &Url) -> (r: String)
        requires
            url@.host is Some,
        ensures
            r@ == self.user_file(url@.host->0, username@),
    {
        let dir = self.get_user_path(username, url);
        join_path(dir.as_str(), USER_INFO_FILE)
    }

    /// The file that describes the repository `name` of `owner` on the
    /// forge at `url`.
    pub fn get_repo_file(&self, name: &str, owner: &str, url: &Url) -> (r: String)
        requires
            url@.host is Some,
        ensures
            r@ == self.repo_file(url@.host->0, owner@, name@),
    {
        let dir = self.get_repo_path(name, owner, url);
        join_path(dir.as_str(), REPO_INFO_FILE)
    }
}

/// The files once `file` is written: it is added unless it is there.
pub open spec fn written(files: Seq<KeyView>, file: Seq<char>) -> Seq<KeyView> {
    if files.contains(seq![file]) {
        files
    } else {
        files.push(seq![file])
    }
}

/// Whether the file at `path` lies in the directory `dir` or below it.
pub open spec fn lies_below(path: Seq<char>, dir: Seq<char>) -> bool {
    begins_with(path, dir + seq!['/'])
}

/// For each of `files` whether it lies beside the directory `dir`: not in
/// it and not below it.
pub open spec fn beside(files: Seq<KeyView>, dir: Seq<char>) -> Seq<bool> {
    Seq::new(files.len(), |i: int| !lies_below(files[i][0], dir))
}

/// An export store held in memory: the files that describe the records,
/// by their paths.
pub struct ExportTree {
    layout: PccFederate,
    files: Table<()>,
}

impl ExportTree {
    /// Where the records lie.
    pub closed spec fn layout(&self) -> PccFederate {
        self.layout
    }

    /// The paths of the files.
    pub closed spec fn files(&self) -> Seq<KeyView> {
        self.files.keys()
    }

    /// No file is there twice.
    pub closed spec fn wf(&self) -> bool {
        &&& self.files.wf()
        &&& forall|i: int|
            0 <= i < self.files.keys().len() ==> (#[trigger] self.files.keys()[i]).len() == 1
    }

    /// Whether the file at `path` is there.
    pub open spec fn has_file(&self, path: Seq<char>) -> bool {
        self.files().contains(seq![path])
    }

    /// An empty export store below `base_dir`.
    pub fn new(base_dir: String) -> (r: Self)
        ensures
            r.wf(),
            r.layout().base_dir == base_dir,
            r.files().len() == 0,
    {
        ExportTree { layout: PccFederate::new(base_dir), files: Table::new() }
    }

    /// check if a forge instance exists
    pub fn forge_exists(&self, url: &Url) -> (r: bool)
        requires
            self.wf(),
            url@.host is Some,
        ensures
            r == self.has_file(self.layout().instance_file(url@.host->0)),
    {
        let path = self.layout.get_instance_file(url);
        self.files.contains(&key1(path.as_str()))
    }

    /// create forge instance: writes the file that describes the forge.
    pub fn create_forge_instance(&mut self, f: &CreateForge)
        requires
            old(self).wf(),
            f.url@.host is Some,
        ensures
            final(self).wf(),
            final(self).layout() == old(self).layout(),
            final(self).files() == written(
                old(self).files(),
                old(self).layout().instance_file(f.url@.host->0),
            ),
    {
        let path = self.layout.get_instance_file(&f.url);
        self.write(path.as_str());
    }

    /// check if an user exists.
    pub fn user_exists(&self, username: &str, url: &Url) -> (r: bool)
        requires
            self.wf(),
            url@.host is Some,
        ensures
            r == self.has_file(self.layout().user_file(url@.host->0, username@)),
    {
        let path = self.layout.get_user_file(username, url);
        self.files.contains(&key1(path.as_str()))
    }

    /// create user instance: writes the file that describes the user.
    pub fn create_user(&mut self, u: &AddUser)
        requires
            old(self).wf(),
            u.url@.host is Some,
        ensures
            final(self).wf(),
            final(self).layout() == old(self).layout(),
            final(self).files() == written(
                old(self).files(),
                old(self).layout().user_file(u.url@.host->0, u.username@),
            ),
    {
        let path = self.layout.get_user_file(u.username, &u.url);
        self.write(path.as_str());
    }

    /// check if a repository exists.
    pub fn repository_exists(&self, name: &str, owner: &str, url: &Url) -> (r: bool)
        requires
            self.wf(),
            url@.host is Some,
        ensures
            r == self.has_file(self.layout().repo_file(url@.host->0, owner@, name@)),
    {
        let path = self.layout.get_repo_file(name, owner, url);
        self.files.contains(&key1(path.as_str()))
    }

    /// add repository instance: writes the file that describes the
    /// repository.
    pub fn create_repository(&mut self, r: &AddRepository)
        requires
            old(self).wf(),
            r.url@.host is Some,
        ensures
            final(self).wf(),
            final(self).layout() == old(self).layout(),
            final(self).files() == written(
                old(self).files(),
                old(self).layout().repo_file(r.url@.host->0, r.owner@, r.name@),
            ),
    {
        let path = self.layout.get_repo_file(r.name, r.owner, &r.url);
        self.write(path.as_str());
    }

    fn write(&mut self, path: &str)
        requires
            old(self).wf(),
        ensures
            final(self).wf(),
            final(self).layout() == old(self).layout(),
            final(self).files() == written(old(self).files(), path@),
    {
        let added = self.files.insert(key1(path), ());
        proof {
            if added {
                assert forall|i: int| 0 <= i < self.files.keys().len() implies (
                #[trigger] self.files.keys()[i]).len() == 1 by {
                    if i < old(self).files.keys().len() {
                        assert(self.files.keys()[i] == old(self).files.keys()[i]);
                    }
                }
            }
        }
    }

    /// Removes the directory `dir` with all that lies below it.
    fn remove_tree(&mut self, dir: &str)
        requires
            old(self).wf(),
        ensures
            final(self).wf(),
            final(self).layout() == old(self).layout(),
            final(self).files() == kept(old(self).files(), beside(old(self).files(), dir@)),
    {
        proof {
            reveal_strlit("/");
        }
        let below = crate::text::join2(dir, "/");
        assert(below@ =~= dir@ + seq!['/']);
        let mut keep: Vec<bool> = Vec::new();
        let mut i: usize = 0;
        while i < self.files.len()
            invariant
                *self == *old(self),
                self.wf(),
                below@ == dir@ + seq!['/'],
                i <= self.files.keys().len(),
                keep@.len() == i,
                forall|k: int|
                    0 <= k < i ==> #[trigger] keep@[k] == !lies_below(self.files.keys()[k][0], dir@),
            decreases self.files.keys().len() - i,
        {
            let key = self.files.key_at(i);
            assert(self.files.keys()[i as int].len() == 1);
            assert(texts(key@)[0] == key@[0]@);
            keep.push(!starts_with(key[0].as_str(), below.as_str()));
            i = i + 1;
        }
        assert(keep@ =~= beside(self.files(), dir@));
        let ghost before = self.files;
        self.files.keep(&keep);
        proof {
            before.lemma_len();
            self.files.lemma_len();
            assert forall|j: int| 0 <= j < self.files.keys().len() implies (
            #[trigger] self.files.keys()[j]).len() == 1 by {
                crate::table::lemma_kept(before.keys(), keep@, self.files.keys()[j]);
                assert(self.files.keys().contains(self.files.keys()[j]));
                let t = choose|t: int|
                    0 <= t < before.keys().len() && keep@[t] && #[trigger] before.keys()[t]
                        == self.files.keys()[j];
            }
        }
    }

    /// delete forge instance: what describes the forge, its users and
    /// their repositories leaves the export store.
    pub fn delete_forge_instance(&mut self, url: &Url)
        requires
            old(self).wf(),
            url@.host is Some,
        ensures
            final(self).wf(),
            final(self).layout() == old(self).layout(),
            final(self).files() == kept(
                old(self).files(),
                beside(old(self).files(), old(self).layout().instance_path(url@.host->0)),
            ),
    {
        let dir = self.layout.get_instance_path(url);
        self.remove_tree(dir.as_str());
    }

    /// delete user: what describes the user and their repositories leaves
    /// the export store.
    pub fn delete_user(&mut self, username: &str, url: &Url)
        requires
            old(self).wf(),
            url@.host is Some,
        ensures
            final(self).wf(),
            final(self).layout() == old(self).layout(),
            final(self).files() == kept(
                old(self).files(),
                beside(old(self).files(), old(self).layout().user_path(url@.host->0, username@)),
            ),
    {
        let dir = self.layout.get_user_path(username, url);
        self.remove_tree(dir.as_str());
    }

    /// delete repository: what describes the repository leaves the export
    /// store.
    pub fn delete_repository(&mut self, owner: &str, name: &str, url: &Url)
        requires
            old(self).wf(),
            url@.host is Some,
        ensures
            final(self).wf(),
            final(self).layout() == old(self).layout(),
            final(self).files() == kept(
                old(self).files(),
                beside(
                    old(self).files(),
                    old(self).layout().repo_path(url@.host->0, owner@, name@),
                ),
            ),
    {
        let dir = self.layout.get_repo_path(name, owner, url);
        self.remove_tree(dir.as_str());
    }
}

/// the number of archives that are kept
pub const KEEP_SNAPSHOTS: usize = 5;

/// The name of the archive that was made at `time`, in seconds since the
/// epoch.
pub open spec fn snapshot_name(time: u64) -> Seq<char> {
    decimal(time as nat) + ".tar"@
}

/// The name of the archive that is made at `now`.
pub fn name_snapshot(now: u64) -> (r: String)
    ensures
        r@ == snapshot_name(now),
{
    join2(decimal_of(now).as_str(), ".tar")
}

/// The time at which the archive named `file` was made: the number that
/// stands before `.tar`. `None` for a file that is named otherwise.
pub open spec fn snapshot_time(file: Seq<char>) -> Option<u64> {
    let n = file.len() as int;
    if n > 4 && file.subrange(n - 4, n) == ".tar"@ && file[0] != '+' {
        number(file.take(n - 4))
    } else {
        None
    }
}

/// The time at which the archive named `file` was made.
pub fn time_of_snapshot(file: &str) -> (r: Option<u64>)
    ensures
        r == snapshot_time(file@),
{
    let v = chars_of(file);
    let n = v.len();
    if n <= 4 || v[0] == '+' {
        return None;
    }
    if !same(file.substring_char(n - 4, n), ".tar") {
        return None;
    }
    assert(file@.take(n - 4) =~= file@.subrange(0, n - 4));
    parse_number(file.substring_char(0, n - 4))
}

/// Whether the times stand in ascending order.
pub open spec fn ascending(s: Seq<u64>) -> bool {
    forall|i: int, j: int| 0 <= i <= j < s.len() ==> s[i] <= s[j]
}

/// The times in ascending order.
pub fn sort_times(times: &Vec<u64>) -> (r: Vec<u64>)
    ensures
        ascending(r@),
        r@.to_multiset() == times@.to_multiset(),
{
    let mut r: Vec<u64> = Vec::new();
    let mut i: usize = 0;
    proof {
        assert(times@.take(0) =~= Seq::<u64>::empty());
    }
    while i < times.len()
        invariant
            i <= times.len(),
            ascending(r@),
            r@.to_multiset() == times@.take(i as int).to_multiset(),
        decreases times.len() - i,
    {
        let t = times[i];
        let mut at: usize = 0;
        while at < r.len() && r[at] <= t
            invariant
                at <= r.len(),
                forall|k: int| 0 <= k < at ==> r@[k] <= t,
            decreases r.len() - at,
        {
            at = at + 1;
        }
        let ghost before = r@;
        r.insert(at, t);
        proof {
            vstd::seq_lib::to_multiset_insert(before, at as int, t);
            vstd::seq_lib::to_multiset_build(times@.take(i as int), t);
            assert(times@.take(i + 1) =~= times@.take(i as int).push(t));
            assert forall|a: int, b: int| 0 <= a <= b < r@.len() implies r@[a] <= r@[b] by {
                let a0 = if a < at { a } else { a - 1 };
                let b0 = if b < at { b } else { b - 1 };
                if a != at && b != at {
                    assert(r@[a] == before[a0] && r@[b] == before[b0]);
                } else if a == at && b != at {
                    assert(r@[b] == before[b0]);
                    assert(before[at as int] <= before[b0]);
                } else if b == at && a != at {
                    assert(r@[a] == before[a0]);
                }
            }
        }
        i = i + 1;
    }
    proof {
        assert(times@.take(times.len() as int) =~= times@);
    }
    r
}

/// The archives of the export store, parted into those that stay and
/// those that go.
#[derive(Debug)]
pub struct Pruned {
    /// the times of the archives that stay, oldest first
    pub keep: Vec<u64>,
    /// the times of the archives that are deleted, oldest first
    pub delete: Vec<u64>,
}

/// Parts the archives made at `times` into the `KEEP_SNAPSHOTS` most
/// recent, which stay, and the older ones, which are deleted.
pub fn prune(times: &Vec<u64>) -> (p: Pruned)
    ensures
        ascending(p.delete@ + p.keep@),
        (p.delete@ + p.keep@).to_multiset() == times@.to_multiset(),
        p.keep@.len() == if times@.len() < KEEP_SNAPSHOTS {
            times@.len()
        } else {
            KEEP_SNAPSHOTS as nat
        },
{
    let sorted = sort_times(times);
    proof {
        sorted@.to_multiset_ensures();
        times@.to_multiset_ensures();
    }
    let n = sorted.len();
    let cut: usize = if n < KEEP_SNAPSHOTS {
        0
    } else {
        n - KEEP_SNAPSHOTS
    };
    let mut delete: Vec<u64> = Vec::new();
    let mut keep: Vec<u64> = Vec::new();
    let mut i: usize = 0;
    while i < n
        invariant
            n == sorted@.len(),
            cut <= n,
            i <= n,
            delete@ == sorted@.subrange(0, if i < cut { i as int } else { cut as int }),
            keep@ == sorted@.subrange(cut as int, if i < cut { cut as int } else { i as int }),
        decreases n - i,
    {
        if i < cut {
            delete.push(sorted[i]);
            assert(delete@ =~= sorted@.subrange(0, i + 1));
        } else {
            keep.push(sorted[i]);
            assert(keep@ =~= sorted@.subrange(cut as int, i + 1));
        }
        i = i + 1;
    }
    assert(delete@ + keep@ =~= sorted@);
    Pruned { keep, delete }
}

/// The time of the most recent of the archives made at `times`; `None`
/// where there is none.
pub fn latest(times: &Vec<u64>) -> (r: Option<u64>)
    ensures
        r is None <==> times@.len() == 0,
        r matches Some(t) ==> times@.contains(t) && forall|i: int|
            0 <= i < times@.len() ==> times@[i] <= t,
{
    if times.len() == 0 {
        return None;
    }
    let mut best = times[0];
    let mut i: usize = 1;
    while i < times.len()
        invariant
            1 <= i <= times.len(),
            times@.contains(best),
            forall|k: int| 0 <= k < i ==> times@[k] <= best,
        decreases times.len() - i,
    {
        if times[i] > best {
            best = times[i];
        }
        i = i + 1;
    }
    Some(best)
}

/// The name of the most recent of the archives made at `times`.
pub fn latest_tar(times: &Vec<u64>) -> (r: Option<String>)
    ensures
        r is None <==> times@.len() == 0,
        r matches Some(name) ==> exists|t: u64|
            #![trigger snapshot_name(t)]
            times@.contains(t) && name@ == snapshot_name(t) && forall|i: int|
                0 <= i < times@.len() ==> times@[i] <= t,
{
    match latest(times) {
        Some(t) => Some(name_snapshot(t)),
        None => None,
    }
}

} // verus!

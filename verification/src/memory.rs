//! The crawl engine driven over a store and an export store held in
//! memory, with the pages of the forge given.

use vstd::prelude::*;
use crate::db::{CreateForge, DBError, DBResult, Forge, ForgeImplementation};
use crate::federate::{lemma_user_file_is_no_repo_file, ExportTree};
use crate::forge::{CrawlResp, Keyed, Repository, User};
use crate::introduce::{select_forges, wanted};
use crate::spider::{keys_of, planned, Action, Crawl, Event, Known, Phase, Write};
use crate::store::{
    forge_key, indexed, indexed_all, lemma_indexed, lemma_indexed_all, repository_words, Database,
};
use crate::table::{kept, lemma_kept, KeyView};
use crate::text::{opt_string, owned};
use crate::weburl::{url_href, url_origin, Url, UrlView};

verus! {

/// The file that describes `user` in the export store `export`.
pub open spec fn user_file_of(export: ExportTree, user: User) -> Seq<char> {
    export.layout().user_file(user.url@.host->0, user.username@)
}

/// The file that describes `repo` in the export store `export`.
pub open spec fn repo_file_of(export: ExportTree, repo: Repository) -> Seq<char> {
    export.layout().repo_file(repo.url@.host->0, repo.owner@, repo.name@)
}

/// Whether one of `users` is described by the file at `path`.
pub open spec fn is_user_file(export: ExportTree, users: Seq<User>, path: Seq<char>) -> bool {
    exists|i: int| 0 <= i < users.len() && user_file_of(export, #[trigger] users[i]) == path
}

/// Whether one of `repos` is described by the file at `path`.
pub open spec fn is_repo_file(export: ExportTree, repos: Seq<Repository>, path: Seq<char>) -> bool {
    exists|i: int| 0 <= i < repos.len() && repo_file_of(export, #[trigger] repos[i]) == path
}

/// Whether `known` says of each of `users` where it is present.
pub open spec fn users_known(
    db: Database,
    export: ExportTree,
    users: Seq<User>,
    known: Seq<Known>,
) -> bool {
    &&& known.len() == users.len()
    &&& forall|i: int|
        0 <= i < users.len() ==> {
            &&& (#[trigger] known[i]).store == db.users().has(users[i].key())
            &&& known[i].export == export.has_file(user_file_of(export, users[i]))
        }
}

/// Whether `known` says of each of `repos` where it is present.
pub open spec fn repos_known(
    db: Database,
    export: ExportTree,
    repos: Seq<Repository>,
    known: Seq<Known>,
) -> bool {
    &&& known.len() == repos.len()
    &&& forall|i: int|
        0 <= i < repos.len() ==> {
            &&& (#[trigger] known[i]).store == db.repositories().has(repos[i].key())
            &&& known[i].export == export.has_file(repo_file_of(export, repos[i]))
        }
}

/// Whether every record that `known` speaks of is present in both stores.
pub open spec fn all_known(known: Seq<Known>) -> bool {
    forall|i: int| 0 <= i < known.len() ==> (#[trigger] known[i]).store && known[i].export
}

/// Whether every record that `known` speaks of is present in the store.
pub open spec fn all_in_store(known: Seq<Known>) -> bool {
    forall|i: int| 0 <= i < known.len() ==> (#[trigger] known[i]).store
}

/// Asks both stores for each of `users` whether they hold it. `None`
/// where a user's forge has no host.
pub fn look_up_users(users: &Vec<User>, db: &Database, export: &ExportTree) -> (r: Option<
    Vec<Known>,
>)
    requires
        db.wf(),
        export.wf(),
    ensures
        r is Some <==> forall|i: int| 0 <= i < users.len() ==> (#[trigger] users@[i]).url@.host is Some,
        r matches Some(known) ==> users_known(*db, *export, users@, known@),
{
    let mut known: Vec<Known> = Vec::new();
    let mut i: usize = 0;
    while i < users.len()
        invariant
            db.wf(),
            export.wf(),
            i <= users.len(),
            known.len() == i,
            forall|k: int| 0 <= k < i ==> (#[trigger] users@[k]).url@.host is Some,
            forall|k: int|
                0 <= k < i ==> {
                    &&& (#[trigger] known@[k]).store == db.users().has(users@[k].key())
                    &&& known@[k].export == export.has_file(user_file_of(*export, users@[k]))
                },
        decreases users.len() - i,
    {
        let u = &users[i];
        if u.url.host_str().is_none() {
            return None;
        }
        let store = match db.user_exists(u.username.as_str(), Some(&u.url)) {
            Ok(b) => b,
            Err(_) => false,
        };
        let exported = export.user_exists(u.username.as_str(), &u.url);
        known.push(Known { store, export: exported });
        i = i + 1;
    }
    Some(known)
}

/// Asks both stores for each of `repos` whether they hold it. `None`
/// where a repository's forge has no host.
pub fn look_up_repos(repos: &Vec<Repository>, db: &Database, export: &ExportTree) -> (r: Option<
    Vec<Known>,
>)
    requires
        db.wf(),
        export.wf(),
    ensures
        r is Some <==> forall|i: int| 0 <= i < repos.len() ==> (#[trigger] repos@[i]).url@.host is Some,
        r matches Some(known) ==> repos_known(*db, *export, repos@, known@),
{
    let mut known: Vec<Known> = Vec::new();
    let mut i: usize = 0;
    while i < repos.len()
        invariant
            db.wf(),
            export.wf(),
            i <= repos.len(),
            known.len() == i,
            forall|k: int| 0 <= k < i ==> (#[trigger] repos@[k]).url@.host is Some,
            forall|k: int|
                0 <= k < i ==> {
                    &&& (#[trigger] known@[k]).store == db.repositories().has(repos@[k].key())
                    &&& known@[k].export == export.has_file(repo_file_of(*export, repos@[k]))
                },
        decreases repos.len() - i,
    {
        let r = &repos[i];
        if r.url.host_str().is_none() {
            return None;
        }
        let store = match db.repository_exists(r.name.as_str(), r.owner.as_str(), &r.url) {
            Ok(b) => b,
            Err(_) => false,
        };
        let exported = export.repository_exists(r.name.as_str(), r.owner.as_str(), &r.url);
        known.push(Known { store, export: exported });
        i = i + 1;
    }
    Some(known)
}

/// Whether `row` holds what the user `user` of a page holds, as a record
/// crawled here.
pub open spec fn user_row(row: crate::db::User, user: User) -> bool {
    &&& row.url@ == user.url@.origin
    &&& row.username@ == user.username@
    &&& row.html_link@ == user.html_link@
    &&& opt_string(row.profile_photo) == opt_string(user.profile_photo)
    &&& !row.import
}

/// Whether `row` holds what the repository `repo` of a page holds, as a
/// record crawled here.
pub open spec fn repo_row(row: crate::db::Repository, repo: Repository) -> bool {
    &&& row.url@ == repo.url@.origin
    &&& row.name@ == repo.name@
    &&& row.username@ == repo.owner@
    &&& row.html_url@ == repo.html_link@
    &&& opt_string(row.description) == opt_string(repo.description)
    &&& opt_string(row.website) == opt_string(repo.website)
    &&& !row.import
    &&& row.tags is Some <==> repo.tags is Some
    &&& row.tags matches Some(t) ==> crate::text::texts(t@) == crate::text::texts(repo.tags->0@)
}

/// Whether `row` was made of one of the first `n` of `users`: of the
/// first that has the identity `key`.
pub open spec fn user_made_of(users: Seq<User>, n: int, key: KeyView, row: crate::db::User) -> bool {
    exists|i: int|
        0 <= i < n && #[trigger] keys_of(users)[i] == key && !crate::spider::seen_before(
            keys_of(users),
            i,
        ) && user_row(row, users[i])
}

/// Whether `row` was made of one of the first `n` of `repos`: of the
/// first that has the identity `key`.
pub open spec fn repo_made_of(
    repos: Seq<Repository>,
    n: int,
    key: KeyView,
    row: crate::db::Repository,
) -> bool {
    exists|i: int|
        0 <= i < n && #[trigger] keys_of(repos)[i] == key && !crate::spider::seen_before(
            keys_of(repos),
            i,
        ) && repo_row(row, repos[i])
}

/// Whether one of the first `n` of `users` has the name `word`.
pub open spec fn is_username(users: Seq<User>, n: int, word: Seq<char>) -> bool {
    exists|i: int| 0 <= i < n && (#[trigger] users[i]).username@ == word
}

/// Whether the repository has the name `word` or the topic tag `word`.
pub open spec fn names_word(repo: Repository, word: Seq<char>) -> bool {
    ||| repo.name@ == word
    ||| repo.tags matches Some(t) && exists|j: int| 0 <= j < t@.len() && (#[trigger] t@[j])@ == word
}

/// Whether one of the first `n` of `repos` has the name `word` or the
/// topic tag `word`.
pub open spec fn is_repo_word(repos: Seq<Repository>, n: int, word: Seq<char>) -> bool {
    exists|i: int| 0 <= i < n && names_word(#[trigger] repos[i], word)
}

/// Whether the mini-index `words` holds the name of the repository `row`
/// and each of its topic tags.
pub open spec fn repo_indexed(words: Seq<KeyView>, row: crate::db::Repository) -> bool {
    &&& words.contains(seq![row.name@])
    &&& row.tags matches Some(t) ==> forall|j: int|
        0 <= j < t@.len() ==> words.contains(seq![(#[trigger] t@[j])@])
}

/// Whether `key` stands in `keys` before position `i`.
pub open spec fn seen_in(keys: Seq<KeyView>, i: int, key: KeyView) -> bool {
    exists|j: int| 0 <= j < i && #[trigger] keys[j] == key
}

/// Whether one of the first `i` of `users` is described by the file at
/// `path`.
pub open spec fn user_file_in(export: ExportTree, users: Seq<User>, i: int, path: Seq<char>) -> bool {
    exists|j: int| 0 <= j < i && user_file_of(export, #[trigger] users[j]) == path
}

/// Whether each of `users` belongs to the forge at `url`.
pub open spec fn users_of(users: Seq<User>, url: UrlView) -> bool {
    forall|i: int| 0 <= i < users.len() ==> (#[trigger] users[i]).url@ == url
}

/// Writes the users of a page where `writes` says. The store refuses a
/// user whose forge it lacks.
fn write_users(
    users: &Vec<User>,
    writes: &Vec<Write>,
    Ghost(known): Ghost<Seq<Known>>,
    Ghost(url): Ghost<UrlView>,
    db: &mut Database,
    export: &mut ExportTree,
) -> (r: DBResult<()>)
    requires
        old(db).wf(),
        old(export).wf(),
        url.host is Some,
        users_of(users@, url),
        users_known(*old(db), *old(export), users@, known),
        writes@ == planned(keys_of(users@), known),
    ensures
        final(db).wf(),
        final(export).wf(),
        final(export).layout() == old(export).layout(),
        final(db).same_but_users_and_words(old(db)),
        all_in_store(known) ==> *final(db) == *old(db),
        all_known(known) ==> *final(export) == *old(export),
        old(db).forges().has(forge_key(url.origin)) ==> r is Ok,
        r is Ok ==> forall|k: KeyView|
            #![trigger final(db).users().has(k)]
            final(db).users().has(k) <==> old(db).users().has(k) || keys_of(users@).contains(k),
        forall|k: KeyView|
            #![trigger final(db).users().row(k)]
            old(db).users().has(k) ==> final(db).users().has(k) && final(db).users().row(k) == old(db).users().row(k),
        forall|k: KeyView|
            #![trigger final(db).users().row(k)]
            final(db).users().has(k) && !old(db).users().has(k) ==> user_made_of(
                users@,
                users@.len() as int,
                k,
                final(db).users().row(k),
            ) && final(db).words().has(seq![final(db).users().row(k).username@]),
        forall|k: KeyView|
            #![trigger final(db).words().has(k)]
            old(db).words().has(k) ==> final(db).words().has(k),
        forall|k: KeyView|
            #![trigger final(db).words().has(k)]
            final(db).words().has(k) && !old(db).words().has(k) ==> is_username(
                users@,
                users@.len() as int,
                k[0],
            ),
        r is Ok ==> forall|p: Seq<char>|
            #![trigger final(export).has_file(p)]
            final(export).has_file(p) <==> old(export).has_file(p) || is_user_file(
                *old(export),
                users@,
                p,
            ),
{
    let ghost keys = keys_of(users@);
    let mut i: usize = 0;
    while i < users.len()
        invariant
            db.wf(),
            export.wf(),
            url.host is Some,
            users_of(users@, url),
            users_known(*old(db), *old(export), users@, known),
            writes@ == planned(keys_of(users@), known),
            keys == keys_of(users@),
            i <= users.len(),
            export.layout() == old(export).layout(),
            db.same_but_users_and_words(old(db)),
            all_in_store(known) ==> *db == *old(db),
            all_known(known) ==> *export == *old(export),
            forall|k: KeyView|
                #![trigger db.users().has(k)]
                db.users().has(k) <==> old(db).users().has(k) || seen_in(keys, i as int, k),
            forall|k: KeyView|
                #![trigger db.users().row(k)]
                old(db).users().has(k) ==> db.users().has(k) && db.users().row(k) == old(db).users().row(k),
            forall|k: KeyView|
                #![trigger db.users().row(k)]
                db.users().has(k) && !old(db).users().has(k) ==> user_made_of(
                    users@,
                    i as int,
                    k,
                    db.users().row(k),
                ) && db.words().has(seq![db.users().row(k).username@]),
            forall|k: KeyView|
                #![trigger db.words().has(k)]
                old(db).words().has(k) ==> db.words().has(k),
            forall|k: KeyView|
                #![trigger db.words().has(k)]
                db.words().has(k) && !old(db).words().has(k) ==> is_username(
                    users@,
                    i as int,
                    k[0],
                ),
            forall|p: Seq<char>|
                #![trigger export.has_file(p)]
                export.has_file(p) <==> old(export).has_file(p) || user_file_in(
                    *old(export),
                    users@,
                    i as int,
                    p,
                ),
        decreases users.len() - i,
    {
        let w = writes[i];
        let u = &users[i];
        let ghost db_before = *db;
        let ghost export_before = *export;
        let ghost key = keys[i as int];
        let ghost file = user_file_of(*old(export), users@[i as int]);
        proof {
            assert(w == crate::spider::record_write(keys, known, i as int));
            assert(key == users@[i as int].key());
            assert(users@[i as int].url@ == url);
            assert(known[i as int].store == old(db).users().has(key));
            if crate::spider::seen_before(keys, i as int) {
                let j = choose|j: int| 0 <= j < i && #[trigger] keys[j] == keys[i as int];
                assert(seen_in(keys, i as int, key));
                assert(users@[j].key()[1] == users@[i as int].key()[1]);
                assert(users@[j].url@ == url);
                assert(user_file_of(*old(export), users@[j]) == file);
                assert(user_file_in(*old(export), users@, i as int, file));
            } else {
                assert(!seen_in(keys, i as int, key));
            }
        }
        if w.store {
            let msg = u.to_add_user();
            match db.add_user(&msg) {
                Ok(_) => {},
                Err(e) => {
                    return Err(e);
                },
            }
        }
        if w.export {
            let msg = u.to_add_user();
            export.create_user(&msg);
        }
        proof {
            if w.store {
                let row = db.users().rows().last();
                assert(db.users().rows() =~= db_before.users().rows().push(row));
                db_before.users().lemma_pushed(&db.users(), key, row);
            }
            assert forall|k: KeyView|
                #![trigger db.words().has(k)]
                (db_before.words().has(k) ==> db.words().has(k)) && (db.words().has(k)
                    && !db_before.words().has(k) ==> w.store && k == seq![
                    users@[i as int].username@,
                ]) by {
                if w.store {
                    lemma_indexed(db_before.words().keys(), users@[i as int].username@, k);
                }
            }
            assert forall|k: KeyView|
                #![trigger db.words().has(k)]
                (old(db).words().has(k) ==> db.words().has(k)) && (db.words().has(k) && !old(db).words().has(k) ==> is_username(users@, i + 1, k[0])) by {
                if db.words().has(k) && !old(db).words().has(k) {
                    if db_before.words().has(k) {
                        let j = choose|j: int|
                            0 <= j < i && (#[trigger] users@[j]).username@ == k[0];
                        assert(0 <= j < i + 1 && users@[j].username@ == k[0]);
                    } else {
                        assert(k[0] == users@[i as int].username@);
                        assert(0 <= i < i + 1 && users@[i as int].username@ == k[0]);
                    }
                }
            }
            assert forall|k: KeyView|
                #![trigger db.users().row(k)]
                (old(db).users().has(k) ==> db.users().has(k) && db.users().row(k) == old(db).users().row(k)) && (db.users().has(k) && !old(db).users().has(k) ==> user_made_of(
                    users@,
                    i + 1,
                    k,
                    db.users().row(k),
                ) && db.words().has(seq![db.users().row(k).username@])) by {
                assert(db.users().map().contains_key(k) <==> db.users().has(k));
                assert(db_before.users().map().contains_key(k) <==> db_before.users().has(k));
                if db.users().has(k) {
                    assert(db.users().map()[k] == db.users().row(k));
                }
                if db_before.users().has(k) {
                    assert(db_before.users().map()[k] == db_before.users().row(k));
                    assert(old(db).users().has(k) ==> db_before.users().row(k) == old(db).users().row(k));
                }
                if db.users().has(k) && !old(db).users().has(k) {
                    if db_before.users().has(k) {
                        assert(user_made_of(users@, i as int, k, db_before.users().row(k)));
                        let j = choose|j: int|
                            0 <= j < i && #[trigger] keys_of(users@)[j] == k
                                && !crate::spider::seen_before(keys_of(users@), j) && user_row(
                                db_before.users().row(k),
                                users@[j],
                            );
                        assert(0 <= j < i + 1 && keys_of(users@)[j] == k);
                        assert(db_before.words().has(seq![db_before.users().row(k).username@]));
                    } else {
                        assert(k == key);
                        assert(0 <= i < i + 1 && keys_of(users@)[i as int] == k);
                        lemma_indexed(
                            db_before.words().keys(),
                            users@[i as int].username@,
                            seq![users@[i as int].username@],
                        );
                    }
                }
            }
            assert forall|k: KeyView|
                #![trigger db.users().has(k)]
                db.users().has(k) <==> old(db).users().has(k) || seen_in(keys, i + 1, k) by {
                if seen_in(keys, i + 1, k) {
                    let j = choose|j: int| 0 <= j < i + 1 && #[trigger] keys[j] == k;
                    if j < i {
                        assert(seen_in(keys, i as int, k));
                    }
                }
                if seen_in(keys, i as int, k) {
                    let j = choose|j: int| 0 <= j < i && #[trigger] keys[j] == k;
                    assert(0 <= j < i + 1 && keys[j] == k);
                }
                if k == key {
                    assert(0 <= i < i + 1 && keys[i as int] == k);
                }
                if w.store {
                    let pushed = db_before.users().keys().push(key);
                    assert(db.users().keys() == pushed);
                    if db_before.users().has(k) {
                        let j = db_before.users().keys().index_of(k);
                        assert(pushed[j] == k);
                    }
                    assert(pushed[pushed.len() - 1] == key);
                }
            }
            assert forall|p: Seq<char>|
                #![trigger export.has_file(p)]
                export.has_file(p) <==> old(export).has_file(p) || user_file_in(
                    *old(export),
                    users@,
                    i + 1,
                    p,
                ) by {
                assert(export_before.has_file(p) <==> old(export).has_file(p) || user_file_in(
                    *old(export),
                    users@,
                    i as int,
                    p,
                ));
                if !w.export {
                    assert(export.has_file(p) == export_before.has_file(p));
                }
                if user_file_in(*old(export), users@, i + 1, p) {
                    let j = choose|j: int|
                        0 <= j < i + 1 && user_file_of(*old(export), #[trigger] users@[j]) == p;
                    if j < i {
                        assert(user_file_in(*old(export), users@, i as int, p));
                    }
                }
                if user_file_in(*old(export), users@, i as int, p) {
                    let j = choose|j: int|
                        0 <= j < i && user_file_of(*old(export), #[trigger] users@[j]) == p;
                    assert(0 <= j < i + 1 && user_file_of(*old(export), users@[j]) == p);
                }
                if p == file {
                    assert(0 <= i < i + 1 && user_file_of(*old(export), users@[i as int]) == p);
                }
                if w.export {
                    let files = export_before.files();
                    if !files.contains(seq![file]) {
                        let pushed = files.push(seq![file]);
                        assert(export.files() == pushed);
                        if export_before.has_file(p) {
                            let j = files.index_of(seq![p]);
                            assert(pushed[j] == seq![p]);
                        }
                        assert(pushed[pushed.len() - 1] == seq![file]);
                        if export.has_file(p) && p != file {
                            let j = pushed.index_of(seq![p]);
                            assert(pushed[j] == seq![p]);
                            assert(seq![p][0] == p && seq![file][0] == file);
                            assert(j < files.len());
                            assert(files[j] == seq![p]);
                        }
                    }
                }
            }
        }
        i = i + 1;
    }
    proof {
        assert(keys.len() == users.len());
        assert forall|k: KeyView| seen_in(keys, users.len() as int, k) <==> keys.contains(k) by {
            if keys.contains(k) {
                let j = keys.index_of(k);
                assert(0 <= j < users.len() && keys[j] == k);
            }
            if seen_in(keys, users.len() as int, k) {
                let j = choose|j: int| 0 <= j < users.len() && #[trigger] keys[j] == k;
                assert(keys[j] == k);
            }
        }
        assert forall|k: KeyView|
            #![trigger db.users().has(k)]
            db.users().has(k) <==> old(db).users().has(k) || keys_of(users@).contains(k) by {
            assert(seen_in(keys, users.len() as int, k) <==> keys.contains(k));
        }
        assert forall|p: Seq<char>|
            user_file_in(*old(export), users@, users.len() as int, p) <==> is_user_file(
                *old(export),
                users@,
                p,
            ) by {}
    }
    Ok(())
}

/// Whether one of the first `i` of `repos` is described by the file at
/// `path`.
pub open spec fn repo_file_in(export: ExportTree, repos: Seq<Repository>, i: int, path: Seq<char>) -> bool {
    exists|j: int| 0 <= j < i && repo_file_of(export, #[trigger] repos[j]) == path
}

/// Whether each of `repos` belongs to the forge at `url`.
pub open spec fn repos_of(repos: Seq<Repository>, url: UrlView) -> bool {
    forall|i: int| 0 <= i < repos.len() ==> (#[trigger] repos[i]).url@ == url
}

/// Whether the store holds the owner of each of `repos`.
pub open spec fn owners_known(db: Database, repos: Seq<Repository>) -> bool {
    forall|i: int| 0 <= i < repos.len() ==> db.users().has((#[trigger] repos[i]).owner_key())
}

/// Writes the repositories of a page where `writes` says. The store
/// refuses a repository whose owner it lacks.
fn write_repos(
    repos: &Vec<Repository>,
    writes: &Vec<Write>,
    Ghost(known): Ghost<Seq<Known>>,
    Ghost(url): Ghost<UrlView>,
    db: &mut Database,
    export: &mut ExportTree,
) -> (r: DBResult<()>)
    requires
        old(db).wf(),
        old(export).wf(),
        url.host is Some,
        repos_of(repos@, url),
        repos_known(*old(db), *old(export), repos@, known),
        writes@ == planned(keys_of(repos@), known),
    ensures
        final(db).wf(),
        final(export).wf(),
        final(export).layout() == old(export).layout(),
        final(db).same_but_repositories_and_words(old(db)),
        all_in_store(known) ==> *final(db) == *old(db),
        all_known(known) ==> *final(export) == *old(export),
        owners_known(*old(db), repos@) ==> r is Ok,
        r is Ok ==> forall|k: KeyView|
            #![trigger final(db).repositories().has(k)]
            final(db).repositories().has(k) <==> old(db).repositories().has(k) || keys_of(repos@).contains(k),
        forall|k: KeyView|
            #![trigger final(db).repositories().row(k)]
            old(db).repositories().has(k) ==> final(db).repositories().has(k) && final(db).repositories().row(k) == old(db).repositories().row(k),
        forall|k: KeyView|
            #![trigger final(db).repositories().row(k)]
            final(db).repositories().has(k) && !old(db).repositories().has(k) ==> repo_made_of(
                repos@,
                repos@.len() as int,
                k,
                final(db).repositories().row(k),
            ) && repo_indexed(final(db).words().keys(), final(db).repositories().row(k)),
        forall|k: KeyView|
            #![trigger final(db).words().has(k)]
            old(db).words().has(k) ==> final(db).words().has(k),
        forall|k: KeyView|
            #![trigger final(db).words().has(k)]
            final(db).words().has(k) && !old(db).words().has(k) ==> is_repo_word(
                repos@,
                repos@.len() as int,
                k[0],
            ),
        r is Ok ==> forall|p: Seq<char>|
            #![trigger final(export).has_file(p)]
            final(export).has_file(p) <==> old(export).has_file(p) || is_repo_file(
                *old(export),
                repos@,
                p,
            ),
{
    let ghost keys = keys_of(repos@);
    let mut i: usize = 0;
    while i < repos.len()
        invariant
            db.wf(),
            export.wf(),
            url.host is Some,
            repos_of(repos@, url),
            repos_known(*old(db), *old(export), repos@, known),
            writes@ == planned(keys_of(repos@), known),
            keys == keys_of(repos@),
            i <= repos.len(),
            export.layout() == old(export).layout(),
            db.same_but_repositories_and_words(old(db)),
            all_in_store(known) ==> *db == *old(db),
            all_known(known) ==> *export == *old(export),
            owners_known(*old(db), repos@) ==> owners_known(*db, repos@),
            forall|k: KeyView|
                #![trigger db.repositories().has(k)]
                db.repositories().has(k) <==> old(db).repositories().has(k) || seen_in(keys, i as int, k),
            forall|k: KeyView|
                #![trigger db.repositories().row(k)]
                old(db).repositories().has(k) ==> db.repositories().has(k) && db.repositories().row(
                    k,
                ) == old(db).repositories().row(k),
            forall|k: KeyView|
                #![trigger db.repositories().row(k)]
                db.repositories().has(k) && !old(db).repositories().has(k) ==> repo_made_of(
                    repos@,
                    i as int,
                    k,
                    db.repositories().row(k),
                ) && repo_indexed(db.words().keys(), db.repositories().row(k)),
            forall|k: KeyView|
                #![trigger db.words().has(k)]
                old(db).words().has(k) ==> db.words().has(k),
            forall|k: KeyView|
                #![trigger db.words().has(k)]
                db.words().has(k) && !old(db).words().has(k) ==> is_repo_word(
                    repos@,
                    i as int,
                    k[0],
                ),
            forall|p: Seq<char>|
                #![trigger export.has_file(p)]
                export.has_file(p) <==> old(export).has_file(p) || repo_file_in(
                    *old(export),
                    repos@,
                    i as int,
                    p,
                ),
        decreases repos.len() - i,
    {
        let w = writes[i];
        let u = &repos[i];
        let ghost db_before = *db;
        let ghost export_before = *export;
        let ghost key = keys[i as int];
        let ghost file = repo_file_of(*old(export), repos@[i as int]);
        proof {
            assert(w == crate::spider::record_write(keys, known, i as int));
            assert(key == repos@[i as int].key());
            assert(repos@[i as int].url@ == url);
            assert(known[i as int].store == old(db).repositories().has(key));
            if crate::spider::seen_before(keys, i as int) {
                let j = choose|j: int| 0 <= j < i && #[trigger] keys[j] == keys[i as int];
                assert(seen_in(keys, i as int, key));
                assert(repos@[j].key()[1] == repos@[i as int].key()[1]);
                assert(repos@[j].key()[2] == repos@[i as int].key()[2]);
                assert(repos@[j].url@ == url);
                assert(repo_file_of(*old(export), repos@[j]) == file);
                assert(repo_file_in(*old(export), repos@, i as int, file));
            } else {
                assert(!seen_in(keys, i as int, key));
            }
        }
        if w.store {
            let msg = u.to_add_repository();
            match db.create_repository(&msg) {
                Ok(_) => {},
                Err(e) => {
                    return Err(e);
                },
            }
            proof {
                let row = db.repositories().rows().last();
                let repo = repos@[i as int];
                let more = repository_words(msg);
                let words = db.words().keys();
                if row.tags is Some {
                    assert(crate::text::texts(row.tags->0@) =~= crate::text::texts(repo.tags->0@));
                }
                assert(repo_row(row, repo));
                assert(more[0] == repo.name@);
                assert forall|t: int| 0 <= t < more.len() implies names_word(
                    repo,
                    #[trigger] more[t],
                ) by {
                    if t > 0 {
                        assert(more[t] == msg.tags->0@[t - 1]@);
                        assert(repo.tags->0@[t - 1]@ == more[t]);
                    }
                }
                assert forall|k: KeyView|
                    #![trigger db.words().has(k)]
                    (db_before.words().has(k) ==> db.words().has(k)) && (db.words().has(k)
                        && !db_before.words().has(k) ==> names_word(repo, k[0])) by {
                    lemma_indexed_all(db_before.words().keys(), more, k);
                    if db.words().has(k) && !db_before.words().has(k) {
                        let t = choose|t: int| 0 <= t < more.len() && k == seq![#[trigger] more[t]];
                        assert(k[0] == more[t]);
                    }
                }
                assert(repo_indexed(words, row)) by {
                    lemma_indexed_all(db_before.words().keys(), more, seq![row.name@]);
                    assert(0 <= 0 < more.len() && seq![row.name@] == seq![more[0]]);
                    if row.tags is Some {
                        let tags = row.tags->0;
                        assert forall|j: int| 0 <= j < tags@.len() implies words.contains(
                            seq![(#[trigger] tags@[j])@],
                        ) by {
                            lemma_indexed_all(db_before.words().keys(), more, seq![tags@[j]@]);
                            assert(more[j + 1] == tags@[j]@);
                            assert(0 <= j + 1 < more.len() && seq![tags@[j]@] == seq![more[j + 1]]);
                        }
                    }
                }
            }
        }
        if w.export {
            let msg = u.to_add_repository();
            export.create_repository(&msg);
        }
        proof {
            if w.store {
                let row = db.repositories().rows().last();
                assert(db.repositories().rows() =~= db_before.repositories().rows().push(row));
                db_before.repositories().lemma_pushed(&db.repositories(), key, row);
            }
            assert forall|k: KeyView|
                #![trigger db.words().has(k)]
                (old(db).words().has(k) ==> db.words().has(k)) && (db.words().has(k) && !old(db).words().has(k) ==> is_repo_word(repos@, i + 1, k[0])) by {
                if db.words().has(k) && !old(db).words().has(k) {
                    if db_before.words().has(k) {
                        let j = choose|j: int| 0 <= j < i && names_word(#[trigger] repos@[j], k[0]);
                        assert(0 <= j < i + 1 && names_word(repos@[j], k[0]));
                    } else {
                        assert(0 <= i < i + 1 && names_word(repos@[i as int], k[0]));
                    }
                }
            }
            assert forall|k: KeyView|
                #![trigger db.repositories().row(k)]
                (old(db).repositories().has(k) ==> db.repositories().has(k)
                    && db.repositories().row(k) == old(db).repositories().row(k)) && (
                db.repositories().has(k) && !old(db).repositories().has(k) ==> repo_made_of(
                    repos@,
                    i + 1,
                    k,
                    db.repositories().row(k),
                ) && repo_indexed(db.words().keys(), db.repositories().row(k))) by {
                assert(db.repositories().map().contains_key(k) <==> db.repositories().has(k));
                assert(db_before.repositories().map().contains_key(k)
                    <==> db_before.repositories().has(k));
                if db.repositories().has(k) {
                    assert(db.repositories().map()[k] == db.repositories().row(k));
                }
                if db_before.repositories().has(k) {
                    assert(db_before.repositories().map()[k] == db_before.repositories().row(k));
                    assert(old(db).repositories().has(k) ==> db_before.repositories().row(k) == old(db).repositories().row(k));
                }
                if db.repositories().has(k) && !old(db).repositories().has(k) {
                    if db_before.repositories().has(k) {
                        assert(repo_made_of(repos@, i as int, k, db_before.repositories().row(k)));
                        let j = choose|j: int|
                            0 <= j < i && #[trigger] keys_of(repos@)[j] == k
                                && !crate::spider::seen_before(keys_of(repos@), j) && repo_row(
                                db_before.repositories().row(k),
                                repos@[j],
                            );
                        assert(0 <= j < i + 1 && keys_of(repos@)[j] == k);
                        let row = db_before.repositories().row(k);
                        assert(repo_indexed(db_before.words().keys(), row));
                        assert(db_before.words().has(seq![row.name@]));
                        if row.tags is Some {
                            assert forall|t: int| 0 <= t < row.tags->0@.len() implies db.words().keys().contains(
                                seq![(#[trigger] row.tags->0@[t])@],
                            ) by {
                                assert(db_before.words().has(seq![row.tags->0@[t]@]));
                                assert(db.words().has(seq![row.tags->0@[t]@]));
                            }
                        }
                        assert(db.words().has(seq![row.name@]));
                        assert(db.repositories().row(k) == row);
                    } else {
                        assert(k == key);
                        assert(0 <= i < i + 1 && keys_of(repos@)[i as int] == k);
                        assert(db.repositories().row(k) == db.repositories().rows().last());
                    }
                }
            }
            assert forall|k: KeyView|
                #![trigger db.repositories().has(k)]
                db.repositories().has(k) <==> old(db).repositories().has(k) || seen_in(keys, i + 1, k) by {
                if seen_in(keys, i + 1, k) {
                    let j = choose|j: int| 0 <= j < i + 1 && #[trigger] keys[j] == k;
                    if j < i {
                        assert(seen_in(keys, i as int, k));
                    }
                }
                if seen_in(keys, i as int, k) {
                    let j = choose|j: int| 0 <= j < i && #[trigger] keys[j] == k;
                    assert(0 <= j < i + 1 && keys[j] == k);
                }
                if k == key {
                    assert(0 <= i < i + 1 && keys[i as int] == k);
                }
                if w.store {
                    let pushed = db_before.repositories().keys().push(key);
                    assert(db.repositories().keys() == pushed);
                    if db_before.repositories().has(k) {
                        let j = db_before.repositories().keys().index_of(k);
                        assert(pushed[j] == k);
                    }
                    assert(pushed[pushed.len() - 1] == key);
                }
            }
            assert forall|p: Seq<char>|
                #![trigger export.has_file(p)]
                export.has_file(p) <==> old(export).has_file(p) || repo_file_in(
                    *old(export),
                    repos@,
                    i + 1,
                    p,
                ) by {
                assert(export_before.has_file(p) <==> old(export).has_file(p) || repo_file_in(
                    *old(export),
                    repos@,
                    i as int,
                    p,
                ));
                if !w.export {
                    assert(export.has_file(p) == export_before.has_file(p));
                }
                if repo_file_in(*old(export), repos@, i + 1, p) {
                    let j = choose|j: int|
                        0 <= j < i + 1 && repo_file_of(*old(export), #[trigger] repos@[j]) == p;
                    if j < i {
                        assert(repo_file_in(*old(export), repos@, i as int, p));
                    }
                }
                if repo_file_in(*old(export), repos@, i as int, p) {
                    let j = choose|j: int|
                        0 <= j < i && repo_file_of(*old(export), #[trigger] repos@[j]) == p;
                    assert(0 <= j < i + 1 && repo_file_of(*old(export), repos@[j]) == p);
                }
                if p == file {
                    assert(0 <= i < i + 1 && repo_file_of(*old(export), repos@[i as int]) == p);
                }
                if w.export {
                    let files = export_before.files();
                    if !files.contains(seq![file]) {
                        let pushed = files.push(seq![file]);
                        assert(export.files() == pushed);
                        if export_before.has_file(p) {
                            let j = files.index_of(seq![p]);
                            assert(pushed[j] == seq![p]);
                        }
                        assert(pushed[pushed.len() - 1] == seq![file]);
                        if export.has_file(p) && p != file {
                            let j = pushed.index_of(seq![p]);
                            assert(pushed[j] == seq![p]);
                            assert(seq![p][0] == p && seq![file][0] == file);
                            assert(j < files.len());
                            assert(files[j] == seq![p]);
                        }
                    }
                }
            }
        }
        i = i + 1;
    }
    proof {
        assert(keys.len() == repos.len());
        assert forall|k: KeyView| seen_in(keys, repos.len() as int, k) <==> keys.contains(k) by {
            if keys.contains(k) {
                let j = keys.index_of(k);
                assert(0 <= j < repos.len() && keys[j] == k);
            }
            if seen_in(keys, repos.len() as int, k) {
                let j = choose|j: int| 0 <= j < repos.len() && #[trigger] keys[j] == k;
                assert(keys[j] == k);
            }
        }
        assert forall|k: KeyView|
            #![trigger db.repositories().has(k)]
            db.repositories().has(k) <==> old(db).repositories().has(k) || keys_of(repos@).contains(k) by {
            assert(seen_in(keys, repos.len() as int, k) <==> keys.contains(k));
        }
        assert forall|p: Seq<char>|
            repo_file_in(*old(export), repos@, repos.len() as int, p) <==> is_repo_file(
                *old(export),
                repos@,
                p,
            ) by {}
    }
    Ok(())
}

/// Whether each of `users` belongs to the forge at `url`.
pub fn users_belong(users: &Vec<User>, url: &Url) -> (r: bool)
    ensures
        r == users_of(users@, url@),
{
    let mut i: usize = 0;
    while i < users.len()
        invariant
            i <= users.len(),
            forall|k: int| 0 <= k < i ==> (#[trigger] users@[k]).url@ == url@,
        decreases users.len() - i,
    {
        if !users[i].url.same_url(url) {
            return false;
        }
        i = i + 1;
    }
    true
}

/// Whether each of `repos` belongs to the forge at `url`.
pub fn repos_belong(repos: &Vec<Repository>, url: &Url) -> (r: bool)
    ensures
        r == repos_of(repos@, url@),
{
    let mut i: usize = 0;
    while i < repos.len()
        invariant
            i <= repos.len(),
            forall|k: int| 0 <= k < i ==> (#[trigger] repos@[k]).url@ == url@,
        decreases repos.len() - i,
    {
        if !repos[i].url.same_url(url) {
            return false;
        }
        i = i + 1;
    }
    true
}

/// Whether the page is one of the forge at `url`: its users and
/// repositories belong to that forge, and the owner of each repository is
/// one of its users.
pub open spec fn page_fits(resp: CrawlResp, url: UrlView) -> bool {
    &&& users_of(resp.users@, url)
    &&& repos_of(resp.repos@, url)
    &&& forall|i: int|
        0 <= i < resp.repos@.len() ==> keys_of(resp.users@).contains(
            (#[trigger] resp.repos@[i]).owner_key(),
        )
}

/// Whether the store holds every user and every repository of the page.
pub open spec fn page_in_store(db: Database, resp: CrawlResp) -> bool {
    &&& forall|i: int|
        0 <= i < resp.users@.len() ==> db.users().has((#[trigger] resp.users@[i]).key())
    &&& forall|i: int|
        0 <= i < resp.repos@.len() ==> db.repositories().has((#[trigger] resp.repos@[i]).key())
}

/// Whether the export store holds the file of every user and of every
/// repository of the page.
pub open spec fn page_in_export(export: ExportTree, resp: CrawlResp) -> bool {
    &&& forall|i: int|
        0 <= i < resp.users@.len() ==> export.has_file(
            user_file_of(export, #[trigger] resp.users@[i]),
        )
    &&& forall|i: int|
        0 <= i < resp.repos@.len() ==> export.has_file(
            repo_file_of(export, #[trigger] resp.repos@[i]),
        )
}

/// Whether `word` is the name of a user of the page, or the name or a
/// topic tag of one of its repositories.
pub open spec fn word_on_page(resp: CrawlResp, word: Seq<char>) -> bool {
    is_username(resp.users@, resp.users@.len() as int, word) || is_repo_word(
        resp.repos@,
        resp.repos@.len() as int,
        word,
    )
}

/// Whether `word` stands on one of the first `n` pages: see
/// `word_on_page`.
pub open spec fn word_on_pages(pages: Seq<CrawlResp>, n: int, word: Seq<char>) -> bool {
    exists|q: int| 0 <= q < n && word_on_page(#[trigger] pages[q], word)
}

/// What the reconciliation of one page with repositories leaves in the
/// two stores: besides what was there, the users and the repositories of
/// the page, and the files that describe them.
pub open spec fn page_written(
    db0: Database,
    ex0: ExportTree,
    resp: CrawlResp,
    db1: Database,
    ex1: ExportTree,
) -> bool {
    &&& forall|k: KeyView|
        #![trigger db1.users().has(k)]
        db1.users().has(k) <==> db0.users().has(k) || keys_of(resp.users@).contains(k)
    &&& forall|k: KeyView|
        #![trigger db1.repositories().has(k)]
        db1.repositories().has(k) <==> db0.repositories().has(k) || keys_of(
            resp.repos@,
        ).contains(k)
    &&& forall|p: Seq<char>|
        #![trigger ex1.has_file(p)]
        ex1.has_file(p) <==> ex0.has_file(p) || is_user_file(ex0, resp.users@, p) || is_repo_file(
            ex0,
            resp.repos@,
            p,
        )
    &&& forall|k: KeyView|
        #![trigger db1.users().row(k)]
        db0.users().has(k) ==> db1.users().row(k) == db0.users().row(k)
    &&& forall|k: KeyView|
        #![trigger db1.users().row(k)]
        db1.users().has(k) && !db0.users().has(k) ==> user_made_of(
            resp.users@,
            resp.users@.len() as int,
            k,
            db1.users().row(k),
        ) && db1.words().has(seq![db1.users().row(k).username@])
    &&& forall|k: KeyView|
        #![trigger db1.repositories().row(k)]
        db0.repositories().has(k) ==> db1.repositories().row(k) == db0.repositories().row(k)
    &&& forall|k: KeyView|
        #![trigger db1.repositories().row(k)]
        db1.repositories().has(k) && !db0.repositories().has(k) ==> repo_made_of(
            resp.repos@,
            resp.repos@.len() as int,
            k,
            db1.repositories().row(k),
        ) && repo_indexed(db1.words().keys(), db1.repositories().row(k))
    &&& forall|k: KeyView| #![trigger db1.words().has(k)] db0.words().has(k) ==> db1.words().has(k)
    &&& forall|k: KeyView|
        #![trigger db1.words().has(k)]
        db1.words().has(k) && !db0.words().has(k) ==> word_on_page(resp, k[0])
    &&& page_in_store(db0, resp) ==> db1 == db0
    &&& page_in_store(db0, resp) && page_in_export(ex0, resp) ==> ex1 == ex0
}

/// Feeds one fetched page to the crawl and writes what the crawl asks
/// for. Answers whether the page ended the crawl.
pub fn reconcile_page(
    crawl: &mut Crawl,
    resp: CrawlResp,
    url: &Url,
    db: &mut Database,
    export: &mut ExportTree,
) -> (r: DBResult<bool>)
    requires
        old(crawl)@.phase == Phase::Fetching,
        old(db).wf(),
        old(export).wf(),
        url@.host is Some,
    ensures
        final(db).wf(),
        final(export).wf(),
        final(export).layout() == old(export).layout(),
        final(db).forges() == old(db).forges(),
        final(db).introduced() == old(db).introduced(),
        final(db).challenges() == old(db).challenges(),
        final(db).imported_words() == old(db).imported_words(),
        match r {
            Ok(true) => {
                &&& resp.repos@.len() == 0
                &&& final(crawl)@ == (crate::spider::CrawlView { phase: Phase::Done, ..old(crawl)@ })
                &&& *final(db) == *old(db)
                &&& *final(export) == *old(export)
            },
            Ok(false) => {
                &&& resp.repos@.len() > 0
                &&& old(crawl)@.page < u64::MAX
                &&& final(crawl)@ == (crate::spider::CrawlView {
                    page: (old(crawl)@.page + 1) as u64,
                    ..old(crawl)@
                })
                &&& page_written(*old(db), *old(export), resp, *final(db), *final(export))
            },
            Err(_) => true,
        },
        page_fits(resp, url@) && old(db).forges().has(forge_key(url@.origin)) && old(crawl)@.page
            < u64::MAX ==> r is Ok,
{
    if resp.repos.len() == 0 {
        let users: Vec<Known> = Vec::new();
        let repos: Vec<Known> = Vec::new();
        return match crawl.advance(Event::Page { resp, users, repos }) {
            Action::Finished { pages } => Ok(true),
            _ => Err(DBError::DBError(owned("the crawl gave up"))),
        };
    }
    if !users_belong(&resp.users, url) || !repos_belong(&resp.repos, url) {
        return Err(DBError::DBError(owned("a record of another forge")));
    }
    let users = match look_up_users(&resp.users, db, export) {
        Some(known) => known,
        None => {
            return Err(DBError::DBError(owned("a forge without a host")));
        },
    };
    let repos = match look_up_repos(&resp.repos, db, export) {
        Some(known) => known,
        None => {
            return Err(DBError::DBError(owned("a forge without a host")));
        },
    };
    let ghost users_known = users@;
    let ghost repos_known = repos@;
    let ghost page = resp;
    match crawl.advance(Event::Page { resp, users, repos }) {
        Action::WritePage { resp, users, repos } => {
            match write_users(&resp.users, &users, Ghost(users_known), Ghost(url@), db, export) {
                Ok(_) => {},
                Err(e) => {
                    return Err(e);
                },
            }
            let ghost db_mid = *db;
            let ghost ex_mid = *export;
            proof {
                assert forall|i: int| 0 <= i < resp.repos@.len() implies {
                    &&& (#[trigger] repos_known[i]).store == db.repositories().has(
                        resp.repos@[i].key(),
                    )
                    &&& repos_known[i].export == export.has_file(
                        repo_file_of(*export, resp.repos@[i]),
                    )
                } by {
                    let file = repo_file_of(*old(export), resp.repos@[i]);
                    if is_user_file(*old(export), resp.users@, file) {
                        let j = choose|j: int|
                            0 <= j < resp.users@.len() && user_file_of(
                                *old(export),
                                #[trigger] resp.users@[j],
                            ) == file;
                        let u = resp.users@[j];
                        let r = resp.repos@[i];
                        lemma_user_file_is_no_repo_file(
                            old(export).layout().user_path(u.url@.host->0, u.username@),
                            old(export).layout().repo_path(r.url@.host->0, r.owner@, r.name@),
                        );
                    }
                }
                if page_fits(page, url@) {
                    assert forall|i: int| 0 <= i < resp.repos@.len() implies db.users().has(
                        (#[trigger] resp.repos@[i]).owner_key(),
                    ) by {}
                }
            }
            match write_repos(&resp.repos, &repos, Ghost(repos_known), Ghost(url@), db, export) {
                Ok(_) => {},
                Err(e) => {
                    return Err(e);
                },
            }
            proof {
                assert forall|p: Seq<char>|
                    #![trigger export.has_file(p)]
                    export.has_file(p) <==> old(export).has_file(p) || is_user_file(
                        *old(export),
                        resp.users@,
                        p,
                    ) || is_repo_file(*old(export), resp.repos@, p) by {
                    assert(is_repo_file(ex_mid, resp.repos@, p) <==> is_repo_file(
                        *old(export),
                        resp.repos@,
                        p,
                    ));
                }
                if page_in_store(*old(db), page) {
                    assert(crate::memory::all_in_store(users_known));
                    assert(crate::memory::all_in_store(repos_known));
                    if page_in_export(*old(export), page) {
                        assert(all_known(users_known));
                        assert(all_known(repos_known));
                    }
                }
            }
            match crawl.advance(Event::Written) {
                Action::Fetch { limit, page, rate_limit } => Ok(false),
                _ => Err(DBError::DBError(owned("too many pages"))),
            }
        },
        _ => Err(DBError::DBError(owned("the crawl gave up"))),
    }
}

/// What a crawl did.
#[derive(Clone, Copy, Debug, PartialEq, Eq, Structural)]
pub struct CrawlReport {
    /// the pages of repositories that the forge had
    pub pages: u64,
    /// the pages that the forge adapter was asked for
    pub fetches: u64,
}

/// Whether the forge has `n` pages of repositories: the first `n` of
/// `pages` have some, and the next, if there is one, has none.
pub open spec fn ends_at(pages: Seq<CrawlResp>, n: int) -> bool {
    &&& 0 <= n <= pages.len()
    &&& forall|q: int| 0 <= q < n ==> (#[trigger] pages[q]).repos@.len() > 0
    &&& n < pages.len() ==> pages[n].repos@.len() == 0
}

/// Whether one of the first `n` pages holds a user with the identity
/// `key`.
pub open spec fn user_on_pages(pages: Seq<CrawlResp>, n: int, key: KeyView) -> bool {
    exists|q: int| 0 <= q < n && keys_of((#[trigger] pages[q]).users@).contains(key)
}

/// Whether one of the first `n` pages holds a repository with the
/// identity `key`.
pub open spec fn repo_on_pages(pages: Seq<CrawlResp>, n: int, key: KeyView) -> bool {
    exists|q: int| 0 <= q < n && keys_of((#[trigger] pages[q]).repos@).contains(key)
}

/// Whether the file at `path` describes a user or a repository of one of
/// the first `n` pages.
pub open spec fn file_on_pages(
    export: ExportTree,
    pages: Seq<CrawlResp>,
    n: int,
    path: Seq<char>,
) -> bool {
    exists|q: int|
        0 <= q < n && (is_user_file(export, (#[trigger] pages[q]).users@, path) || is_repo_file(
            export,
            pages[q].repos@,
            path,
        ))
}

/// Whether the store holds the forge and every record of the first `n`
/// pages.
pub open spec fn store_settled(db: Database, url: UrlView, pages: Seq<CrawlResp>, n: int) -> bool {
    &&& db.forges().has(forge_key(url.origin))
    &&& forall|q: int| 0 <= q < n ==> page_in_store(db, #[trigger] pages[q])
}

/// Whether the export store holds the file of the forge and of every
/// record of the first `n` pages.
pub open spec fn export_settled(
    export: ExportTree,
    url: UrlView,
    pages: Seq<CrawlResp>,
    n: int,
) -> bool {
    &&& export.has_file(export.layout().instance_file(url.host->0))
    &&& forall|q: int| 0 <= q < n ==> page_in_export(export, #[trigger] pages[q])
}

/// Whether `row` was made of a user of one of the first `n` pages: of the
/// first user of its page that has the identity `key`.
pub open spec fn user_row_on_pages(
    pages: Seq<CrawlResp>,
    n: int,
    key: KeyView,
    row: crate::db::User,
) -> bool {
    exists|q: int|
        0 <= q < n && user_made_of(
            (#[trigger] pages[q]).users@,
            pages[q].users@.len() as int,
            key,
            row,
        )
}

/// Whether `row` was made of a repository of one of the first `n` pages:
/// of the first repository of its page that has the identity `key`.
pub open spec fn repo_row_on_pages(
    pages: Seq<CrawlResp>,
    n: int,
    key: KeyView,
    row: crate::db::Repository,
) -> bool {
    exists|q: int|
        0 <= q < n && repo_made_of(
            (#[trigger] pages[q]).repos@,
            pages[q].repos@.len() as int,
            key,
            row,
        )
}

/// Whether `row` is the forge at `url` as a crawl creates it: not learned
/// from a peer, and not crawled before.
pub open spec fn forge_row(row: Forge, url: UrlView, forge_type: ForgeImplementation) -> bool {
    &&& row.url@ == url.origin
    &&& row.forge_type == forge_type
    &&& row.last_crawl_on is None
    &&& row.starchart_url is None
    &&& !row.imported
}

/// What a crawl of the forge at `url`, which serves `pages` and then
/// nothing, makes of the stores `db0` and `ex0`.
///
/// The forge adapter is asked once for each page of repositories and
/// once more for the page that ends the crawl. The store then holds,
/// besides what it held, which is as it was, the forge and the users and
/// repositories of those pages, each once and as the first page that
/// held it described it. The export store holds, besides what it held,
/// the files that describe those users and repositories, and the file of
/// the forge where the store knew the forge before. A store that held
/// all of it is left as it was.
pub open spec fn crawled(
    db0: Database,
    ex0: ExportTree,
    url: UrlView,
    forge_type: ForgeImplementation,
    pages: Seq<CrawlResp>,
    db1: Database,
    ex1: ExportTree,
    report: CrawlReport,
) -> bool {
    let n = report.pages as int;
    &&& rows_crawled(db0, url, forge_type, pages, n, db1)
    &&& ends_at(pages, n)
    &&& report.fetches == n + 1
    &&& ex1.layout() == ex0.layout()
    &&& db1.introduced() == db0.introduced()
    &&& db1.challenges() == db0.challenges()
    &&& db1.imported_words() == db0.imported_words()
    &&& forall|k: KeyView| #![trigger db1.forges().has(k)] db1.forges().has(k) <==> db0.forges().has(k) || k == forge_key(url.origin)
    &&& forall|k: KeyView| #![trigger db1.users().has(k)] db1.users().has(k) <==> db0.users().has(k) || user_on_pages(pages, n, k)
    &&& forall|k: KeyView|
        #![trigger db1.repositories().has(k)]
        db1.repositories().has(k) <==> db0.repositories().has(k) || repo_on_pages(pages, n, k)
    &&& forall|p: Seq<char>|
        #![trigger ex1.has_file(p)]
        ex1.has_file(p) <==> ex0.has_file(p) || (db0.forges().has(forge_key(url.origin)) && p
            == ex0.layout().instance_file(url.host->0)) || file_on_pages(ex0, pages, n, p)
    &&& store_settled(db0, url, pages, n) ==> db1 == db0
    &&& store_settled(db0, url, pages, n) && export_settled(ex0, url, pages, n) ==> ex1 == ex0
}

/// What a crawl leaves in the rows of the store: the rows that were there
/// are as they were; the row of the forge, where it is new, is that of a
/// forge crawled here; and each new user and repository is as the first
/// page that held it described it. The mini-index holds what it held, the
/// name of each new user, and the name and the topic tags of each new
/// repository; a word that is new to it stands on one of the pages.
pub open spec fn rows_crawled(
    db0: Database,
    url: UrlView,
    forge_type: ForgeImplementation,
    pages: Seq<CrawlResp>,
    n: int,
    db1: Database,
) -> bool {
    &&& forall|k: KeyView|
        #![trigger db1.forges().row(k)]
        db0.forges().has(k) ==> db1.forges().row(k) == db0.forges().row(k)
    &&& !db0.forges().has(forge_key(url.origin)) ==> forge_row(
        db1.forges().row(forge_key(url.origin)),
        url,
        forge_type,
    )
    &&& forall|k: KeyView|
        #![trigger db1.users().row(k)]
        db0.users().has(k) ==> db1.users().row(k) == db0.users().row(k)
    &&& forall|k: KeyView|
        #![trigger db1.users().row(k)]
        db1.users().has(k) && !db0.users().has(k) ==> user_row_on_pages(
            pages,
            n,
            k,
            db1.users().row(k),
        ) && db1.words().has(seq![db1.users().row(k).username@])
    &&& forall|k: KeyView|
        #![trigger db1.repositories().row(k)]
        db0.repositories().has(k) ==> db1.repositories().row(k) == db0.repositories().row(k)
    &&& forall|k: KeyView|
        #![trigger db1.repositories().row(k)]
        db1.repositories().has(k) && !db0.repositories().has(k) ==> repo_row_on_pages(
            pages,
            n,
            k,
            db1.repositories().row(k),
        ) && repo_indexed(db1.words().keys(), db1.repositories().row(k))
    &&& forall|k: KeyView| #![trigger db1.words().has(k)] db0.words().has(k) ==> db1.words().has(k)
    &&& forall|k: KeyView|
        #![trigger db1.words().has(k)]
        db1.words().has(k) && !db0.words().has(k) ==> word_on_pages(pages, n, k[0])
}

/// Whether a crawl of the forge at `url` that serves `pages` can be
/// carried out: the forge has a host, and each page is one of that forge.
pub open spec fn crawlable(url: UrlView, pages: Seq<CrawlResp>) -> bool {
    &&& url.host is Some
    &&& pages.len() < u64::MAX - 1
    &&& forall|q: int| 0 <= q < pages.len() ==> page_fits(#[trigger] pages[q], url)
}

/// Crawls the forge at `url` into the store `db` and the export store
/// `export`. The forge serves `pages`, in order, and then nothing. On
/// success the stores are as `crawled` says; a crawl that is `crawlable`
/// succeeds. A crawl that fails leaves what it wrote until then.
pub fn crawl(
    url: &Url,
    forge_type: ForgeImplementation,
    pages: Vec<CrawlResp>,
    limit: u64,
    rate_limit: u64,
    db: &mut Database,
    export: &mut ExportTree,
) -> (r: DBResult<CrawlReport>)
    requires
        old(db).wf(),
        old(export).wf(),
    ensures
        final(db).wf(),
        final(export).wf(),
        r matches Ok(report) ==> crawled(
            *old(db),
            *old(export),
            url@,
            forge_type,
            pages@,
            *final(db),
            *final(export),
            report,
        ),
        crawlable(url@, pages@) ==> r is Ok,
{
    if url.host_str().is_none() {
        return Err(DBError::DBError(owned("a forge without a host")));
    }
    let mut crawl = Crawl::new(url.clone(), forge_type, limit, rate_limit);
    let _ = crawl.advance(Event::Start);
    let in_store = match db.forge_exists(url) {
        Ok(b) => b,
        Err(e) => {
            return Err(e);
        },
    };
    let in_export = export.forge_exists(url);
    let known = Known { store: in_store, export: in_export };
    match crawl.advance(Event::ForgeKnown(known)) {
        Action::WriteForge(w) => {
            let msg = crawl.forge_message();
            if w.store {
                match db.create_forge_instance(&msg) {
                    Ok(_) => {},
                    Err(e) => {
                        return Err(e);
                    },
                }
            }
            if w.export {
                export.create_forge_instance(&msg);
            }
            let _ = crawl.advance(Event::Written);
        },
        _ => {},
    }
    let ghost all = pages@;
    let ghost db_start = *db;
    let ghost ex_start = *export;
    let ghost file = old(export).layout().instance_file(url@.host->0);
    proof {
        assert forall|k: KeyView|
            #![trigger db.forges().has(k)]
            db.forges().has(k) <==> old(db).forges().has(k) || k == forge_key(url@.origin) by {
            if !in_store {
                let pushed = old(db).forges().keys().push(forge_key(url@.origin));
                assert(db.forges().keys() == pushed);
                if old(db).forges().has(k) {
                    let j = old(db).forges().keys().index_of(k);
                    assert(pushed[j] == k);
                }
                assert(pushed[pushed.len() - 1] == forge_key(url@.origin));
            }
        }
        assert forall|p: Seq<char>|
            #![trigger export.has_file(p)]
            export.has_file(p) <==> old(export).has_file(p) || (in_store && p == file) by {
            if in_store && !in_export {
                let files = old(export).files();
                let pushed = files.push(seq![file]);
                assert(export.files() == pushed);
                if old(export).has_file(p) {
                    let j = files.index_of(seq![p]);
                    assert(pushed[j] == seq![p]);
                }
                assert(pushed[pushed.len() - 1] == seq![file]);
                if export.has_file(p) && p != file {
                    let j = pushed.index_of(seq![p]);
                    assert(pushed[j] == seq![p]);
                    assert(seq![p][0] == p && seq![file][0] == file);
                    assert(files[j] == seq![p]);
                }
            }
        }
    }
    proof {
        if !in_store {
            let row = db.forges().rows().last();
            assert(db.forges().rows() =~= old(db).forges().rows().push(row));
            old(db).forges().lemma_pushed(&db.forges(), forge_key(url@.origin), row);
        }
        assert forall|k: KeyView|
            #![trigger db.forges().row(k)]
            old(db).forges().has(k) implies db.forges().row(k) == old(db).forges().row(k) by {
            assert(db.forges().map().contains_key(k) <==> db.forges().has(k));
            assert(old(db).forges().map().contains_key(k) <==> old(db).forges().has(k));
            assert(old(db).forges().map()[k] == old(db).forges().row(k));
            assert(db.forges().map()[k] == db.forges().row(k));
        }
        if !in_store {
            let fk = forge_key(url@.origin);
            assert(db.forges().map().contains_key(fk));
            assert(db.forges().map()[fk] == db.forges().row(fk));
        }
        assert(rows_crawled(*old(db), url@, forge_type, all, 0, *db));
    }
    let total = pages.len();
    let mut rest = pages;
    let mut done: u64 = 0;
    assert(rest@ =~= all.skip(0));
    loop
        invariant
            all == pages@,
            db.wf(),
            export.wf(),
            url@.host is Some,
            crawl@.phase == Phase::Fetching,
            crawl@.page == done + 1,
            done <= all.len(),
            all.len() <= usize::MAX,
            rest@ == all.skip(done as int),
            forall|q: int| 0 <= q < done ==> (#[trigger] all[q]).repos@.len() > 0,
            export.layout() == old(export).layout(),
            db.introduced() == old(db).introduced(),
            db.challenges() == old(db).challenges(),
            db.imported_words() == old(db).imported_words(),
            db.forges() == db_start.forges(),
            db_start.forges().has(forge_key(url@.origin)),
            forall|k: KeyView|
                #![trigger db_start.forges().has(k)]
                db_start.forges().has(k) <==> old(db).forges().has(k) || k == forge_key(
                    url@.origin,
                ),
            forall|k: KeyView|
                #![trigger db.users().has(k)]
                db.users().has(k) <==> old(db).users().has(k) || user_on_pages(all, done as int, k),
            forall|k: KeyView|
                #![trigger db.repositories().has(k)]
                db.repositories().has(k) <==> old(db).repositories().has(k) || repo_on_pages(
                    all,
                    done as int,
                    k,
                ),
            forall|p: Seq<char>|
                #![trigger export.has_file(p)]
                export.has_file(p) <==> old(export).has_file(p) || (old(db).forges().has(
                    forge_key(url@.origin),
                ) && p == old(export).layout().instance_file(url@.host->0)) || file_on_pages(
                    *old(export),
                    all,
                    done as int,
                    p,
                ),
            rows_crawled(*old(db), url@, forge_type, all, done as int, *db),
            store_settled(*old(db), url@, all, done as int) ==> *db == *old(db),
            store_settled(*old(db), url@, all, done as int) && export_settled(
                *old(export),
                url@,
                all,
                done as int,
            ) ==> *export == *old(export),
            crawlable(url@, all) ==> done < u64::MAX - 1,
        decreases rest.len(),
    {
        let resp = if rest.len() > 0 {
            rest.remove(0)
        } else {
            CrawlResp::empty()
        };
        let ghost page = resp;
        let ghost db_before = *db;
        let ghost ex_before = *export;
        proof {
            if done < all.len() {
                assert(page == all[done as int]);
                assert(rest@ =~= all.skip(done + 1));
            }
        }
        match reconcile_page(&mut crawl, resp, url, db, export) {
            Ok(true) => {
                return Ok(CrawlReport { pages: done, fetches: done + 1 });
            },
            Ok(false) => {
                proof {
                    assert(done < all.len());
                    lemma_page_added(
                        *old(db),
                        *old(export),
                        url@,
                        forge_type,
                        all,
                        done as int,
                        db_before,
                        ex_before,
                        *db,
                        *export,
                    );
                }
                done = done + 1;
            },
            Err(e) => {
                return Err(e);
            },
        }
    }
}

/// A forge has one number of pages of repositories.
pub proof fn lemma_ends_once(pages: Seq<CrawlResp>, n: int, m: int)
    requires
        ends_at(pages, n),
        ends_at(pages, m),
    ensures
        n == m,
{
    if n < m {
        assert(pages[n].repos@.len() > 0);
    } else if m < n {
        assert(pages[m].repos@.len() > 0);
    }
}

/// After a crawl the store holds the forge and every record of its pages.
pub proof fn lemma_crawl_settles_store(
    db0: Database,
    ex0: ExportTree,
    url: UrlView,
    forge_type: ForgeImplementation,
    pages: Seq<CrawlResp>,
    db1: Database,
    ex1: ExportTree,
    report: CrawlReport,
)
    requires
        crawled(db0, ex0, url, forge_type, pages, db1, ex1, report),
    ensures
        store_settled(db1, url, pages, report.pages as int),
{
    let n = report.pages as int;
    assert(db1.forges().has(forge_key(url.origin)));
    assert forall|q: int| 0 <= q < n implies page_in_store(db1, #[trigger] pages[q]) by {
        let page = pages[q];
        assert forall|i: int| 0 <= i < page.users@.len() implies db1.users().has(
            (#[trigger] page.users@[i]).key(),
        ) by {
            let k = page.users@[i].key();
            assert(keys_of(page.users@)[i] == k);
            assert(keys_of(pages[q].users@).contains(k));
            assert(user_on_pages(pages, n, k));
        }
        assert forall|i: int| 0 <= i < page.repos@.len() implies db1.repositories().has(
            (#[trigger] page.repos@[i]).key(),
        ) by {
            let k = page.repos@[i].key();
            assert(keys_of(page.repos@)[i] == k);
            assert(keys_of(pages[q].repos@).contains(k));
            assert(repo_on_pages(pages, n, k));
        }
    }
}

/// Crawling is idempotent: a second crawl of a forge that serves the same
/// pages asks the adapter as often as the first, one time more than the
/// forge has pages of repositories, and leaves the store as the first
/// crawl left it: it creates no row.
pub proof fn lemma_recrawl_creates_nothing(
    db0: Database,
    ex0: ExportTree,
    url: UrlView,
    forge_type: ForgeImplementation,
    pages: Seq<CrawlResp>,
    db1: Database,
    ex1: ExportTree,
    first: CrawlReport,
    db2: Database,
    ex2: ExportTree,
    second: CrawlReport,
)
    requires
        crawled(db0, ex0, url, forge_type, pages, db1, ex1, first),
        crawled(db1, ex1, url, forge_type, pages, db2, ex2, second),
    ensures
        second == first,
        second.fetches == second.pages + 1,
        db2 == db1,
{
    lemma_ends_once(pages, first.pages as int, second.pages as int);
    lemma_crawl_settles_store(db0, ex0, url, forge_type, pages, db1, ex1, first);
}

/// The stores after one more page, given what they held after the pages
/// before it.
proof fn lemma_page_added(
    db0: Database,
    ex0: ExportTree,
    url: UrlView,
    forge_type: ForgeImplementation,
    all: Seq<CrawlResp>,
    done: int,
    db1: Database,
    ex1: ExportTree,
    db2: Database,
    ex2: ExportTree,
)
    requires
        0 <= done < all.len(),
        ex1.layout() == ex0.layout(),
        page_written(db1, ex1, all[done], db2, ex2),
        forall|k: KeyView| #![trigger db1.users().has(k)] db1.users().has(k) <==> db0.users().has(k) || user_on_pages(all, done, k),
        forall|k: KeyView|
            #![trigger db1.repositories().has(k)]
            db1.repositories().has(k) <==> db0.repositories().has(k) || repo_on_pages(all, done, k),
        forall|p: Seq<char>|
            #![trigger ex1.has_file(p)]
            ex1.has_file(p) <==> ex0.has_file(p) || (db0.forges().has(forge_key(url.origin)) && p
                == ex0.layout().instance_file(url.host->0)) || file_on_pages(ex0, all, done, p),
        store_settled(db0, url, all, done) ==> db1 == db0,
        store_settled(db0, url, all, done) && export_settled(ex0, url, all, done) ==> ex1 == ex0,
        rows_crawled(db0, url, forge_type, all, done, db1),
        db2.forges() == db1.forges(),
    ensures
        rows_crawled(db0, url, forge_type, all, done + 1, db2),
        forall|k: KeyView|
            #![trigger db2.users().has(k)]
            db2.users().has(k) <==> db0.users().has(k) || user_on_pages(all, done + 1, k),
        forall|k: KeyView|
            #![trigger db2.repositories().has(k)]
            db2.repositories().has(k) <==> db0.repositories().has(k) || repo_on_pages(
                all,
                done + 1,
                k,
            ),
        forall|p: Seq<char>|
            #![trigger ex2.has_file(p)]
            ex2.has_file(p) <==> ex0.has_file(p) || (db0.forges().has(forge_key(url.origin)) && p
                == ex0.layout().instance_file(url.host->0)) || file_on_pages(ex0, all, done + 1, p),
        store_settled(db0, url, all, done + 1) ==> db2 == db0,
        store_settled(db0, url, all, done + 1) && export_settled(ex0, url, all, done + 1) ==> ex2
            == ex0,
{
    let page = all[done];
    assert forall|k: KeyView|
        user_on_pages(all, done + 1, k) <==> user_on_pages(all, done, k) || keys_of(
            page.users@,
        ).contains(k) by {
        if user_on_pages(all, done + 1, k) {
            let q = choose|q: int|
                0 <= q < done + 1 && keys_of((#[trigger] all[q]).users@).contains(k);
            if q < done {
                assert(user_on_pages(all, done, k));
            }
        }
        if user_on_pages(all, done, k) {
            let q = choose|q: int| 0 <= q < done && keys_of((#[trigger] all[q]).users@).contains(k);
            assert(0 <= q < done + 1 && keys_of(all[q].users@).contains(k));
        }
        if keys_of(page.users@).contains(k) {
            assert(0 <= done < done + 1 && keys_of(all[done].users@).contains(k));
        }
    }
    assert forall|k: KeyView|
        repo_on_pages(all, done + 1, k) <==> repo_on_pages(all, done, k) || keys_of(
            page.repos@,
        ).contains(k) by {
        if repo_on_pages(all, done + 1, k) {
            let q = choose|q: int|
                0 <= q < done + 1 && keys_of((#[trigger] all[q]).repos@).contains(k);
            if q < done {
                assert(repo_on_pages(all, done, k));
            }
        }
        if repo_on_pages(all, done, k) {
            let q = choose|q: int| 0 <= q < done && keys_of((#[trigger] all[q]).repos@).contains(k);
            assert(0 <= q < done + 1 && keys_of(all[q].repos@).contains(k));
        }
        if keys_of(page.repos@).contains(k) {
            assert(0 <= done < done + 1 && keys_of(all[done].repos@).contains(k));
        }
    }
    assert forall|p: Seq<char>|
        file_on_pages(ex0, all, done + 1, p) <==> file_on_pages(ex0, all, done, p) || is_user_file(
            ex1,
            page.users@,
            p,
        ) || is_repo_file(ex1, page.repos@, p) by {
        assert(is_user_file(ex1, page.users@, p) <==> is_user_file(ex0, page.users@, p));
        assert(is_repo_file(ex1, page.repos@, p) <==> is_repo_file(ex0, page.repos@, p));
        if file_on_pages(ex0, all, done + 1, p) {
            let q = choose|q: int|
                0 <= q < done + 1 && (is_user_file(ex0, (#[trigger] all[q]).users@, p)
                    || is_repo_file(ex0, all[q].repos@, p));
            if q < done {
                assert(file_on_pages(ex0, all, done, p));
            }
        }
        if file_on_pages(ex0, all, done, p) {
            let q = choose|q: int|
                0 <= q < done && (is_user_file(ex0, (#[trigger] all[q]).users@, p) || is_repo_file(
                    ex0,
                    all[q].repos@,
                    p,
                ));
            assert(0 <= q < done + 1 && (is_user_file(ex0, all[q].users@, p) || is_repo_file(
                ex0,
                all[q].repos@,
                p,
            )));
        }
        if is_user_file(ex0, page.users@, p) || is_repo_file(ex0, page.repos@, p) {
            assert(0 <= done < done + 1 && (is_user_file(ex0, all[done].users@, p) || is_repo_file(
                ex0,
                all[done].repos@,
                p,
            )));
        }
    }
    assert forall|k: KeyView|
        #![trigger db2.words().has(k)]
        (db0.words().has(k) ==> db2.words().has(k)) && (db2.words().has(k) && !db0.words().has(k)
            ==> word_on_pages(all, done + 1, k[0])) by {
        if db0.words().has(k) {
            assert(db1.words().has(k));
        }
        if db2.words().has(k) && !db0.words().has(k) {
            if db1.words().has(k) {
                let q = choose|q: int| 0 <= q < done && word_on_page(#[trigger] all[q], k[0]);
                assert(0 <= q < done + 1 && word_on_page(all[q], k[0]));
            } else {
                assert(0 <= done < done + 1 && word_on_page(all[done], k[0]));
            }
        }
    }
    assert forall|k: KeyView|
        #![trigger db2.users().row(k)]
        (db0.users().has(k) ==> db2.users().row(k) == db0.users().row(k)) && (db2.users().has(k)
            && !db0.users().has(k) ==> user_row_on_pages(all, done + 1, k, db2.users().row(k))
            && db2.words().has(seq![db2.users().row(k).username@])) by {
        if db0.users().has(k) {
            assert(db1.users().row(k) == db0.users().row(k));
            assert(db2.users().row(k) == db1.users().row(k));
        }
        if db2.users().has(k) && !db0.users().has(k) {
            if db1.users().has(k) {
                assert(db2.users().row(k) == db1.users().row(k));
                assert(user_row_on_pages(all, done, k, db1.users().row(k)));
                assert(db1.words().has(seq![db1.users().row(k).username@]));
                assert(db2.words().has(seq![db1.users().row(k).username@]));
                let q = choose|q: int|
                    0 <= q < done && user_made_of(
                        (#[trigger] all[q]).users@,
                        all[q].users@.len() as int,
                        k,
                        db1.users().row(k),
                    );
                assert(0 <= q < done + 1 && user_made_of(
                    all[q].users@,
                    all[q].users@.len() as int,
                    k,
                    db2.users().row(k),
                ));
            } else {
                assert(0 <= done < done + 1 && user_made_of(
                    all[done].users@,
                    all[done].users@.len() as int,
                    k,
                    db2.users().row(k),
                ));
            }
        }
    }
    assert forall|k: KeyView|
        #![trigger db2.repositories().row(k)]
        (db0.repositories().has(k) ==> db2.repositories().row(k) == db0.repositories().row(k)) && (
        db2.repositories().has(k) && !db0.repositories().has(k) ==> repo_row_on_pages(
            all,
            done + 1,
            k,
            db2.repositories().row(k),
        ) && repo_indexed(db2.words().keys(), db2.repositories().row(k))) by {
        if db0.repositories().has(k) {
            assert(db1.repositories().row(k) == db0.repositories().row(k));
            assert(db2.repositories().row(k) == db1.repositories().row(k));
        }
        if db2.repositories().has(k) && !db0.repositories().has(k) {
            if db1.repositories().has(k) {
                assert(db2.repositories().row(k) == db1.repositories().row(k));
                assert(repo_row_on_pages(all, done, k, db1.repositories().row(k)));
                let row = db1.repositories().row(k);
                assert(repo_indexed(db1.words().keys(), row));
                assert(db1.words().has(seq![row.name@]));
                assert(db2.words().has(seq![row.name@]));
                if row.tags is Some {
                    assert forall|t: int| 0 <= t < row.tags->0@.len() implies db2.words().keys().contains(
                        seq![(#[trigger] row.tags->0@[t])@],
                    ) by {
                        assert(db1.words().has(seq![row.tags->0@[t]@]));
                        assert(db2.words().has(seq![row.tags->0@[t]@]));
                    }
                }
                let q = choose|q: int|
                    0 <= q < done && repo_made_of(
                        (#[trigger] all[q]).repos@,
                        all[q].repos@.len() as int,
                        k,
                        db1.repositories().row(k),
                    );
                assert(0 <= q < done + 1 && repo_made_of(
                    all[q].repos@,
                    all[q].repos@.len() as int,
                    k,
                    db2.repositories().row(k),
                ));
            } else {
                assert(0 <= done < done + 1 && repo_made_of(
                    all[done].repos@,
                    all[done].repos@.len() as int,
                    k,
                    db2.repositories().row(k),
                ));
            }
        }
    }
    if store_settled(db0, url, all, done + 1) {
        assert(store_settled(db0, url, all, done));
        assert(page_in_store(db0, all[done]));
        if export_settled(ex0, url, all, done + 1) {
            assert(export_settled(ex0, url, all, done));
            assert(page_in_export(ex0, all[done]));
        }
    }
}

/// Whether one of the first `n` of `forges` has a URL that is one and
/// gives the key `key`.
pub open spec fn forge_listed(forges: Seq<Forge>, n: int, key: KeyView) -> bool {
    exists|i: int|
        0 <= i < n && url_href((#[trigger] forges[i]).url@) is Some && key == forge_key(
            url_origin(forges[i].url@),
        )
}

/// Whether `row` is the forge under `key` as it is learned from the peer
/// at `origin`: one of the first `n` of `forges` has a URL that gives the
/// key, and the row holds the kind of that forge.
pub open spec fn forge_learned(
    forges: Seq<Forge>,
    n: int,
    key: KeyView,
    row: Forge,
    origin: Seq<char>,
) -> bool {
    &&& key == forge_key(row.url@)
    &&& row.imported
    &&& opt_string(row.starchart_url) == Some(origin)
    &&& row.last_crawl_on is None
    &&& exists|i: int|
        0 <= i < n && url_href((#[trigger] forges[i]).url@) is Some && key == forge_key(
            url_origin(forges[i].url@),
        ) && row.forge_type == forges[i].forge_type
}

/// What the introduction of the peer at `peer`, which lists `forges` and
/// exports `mini_index`, makes of the store `db0`.
///
/// The peer is known. The store holds, besides the forges that it held,
/// which are as they were, the forges of the list that have a URL, each
/// marked as learned from the peer. The mini-index of the peer is the one
/// that it exports now; those of other peers are as they were.
pub open spec fn introduced(
    db0: Database,
    peer: UrlView,
    forges: Seq<Forge>,
    mini_index: Seq<char>,
    db1: Database,
) -> bool {
    &&& db1.introduced().has(seq![peer.href])
    &&& forall|k: KeyView|
        #![trigger db1.introduced().has(k)]
        db1.introduced().has(k) <==> db0.introduced().has(k) || k == seq![peer.href]
    &&& forall|k: KeyView|
        #![trigger db1.forges().has(k)]
        db1.forges().has(k) <==> db0.forges().has(k) || forge_listed(forges, forges.len() as int, k)
    &&& forall|k: KeyView|
        #![trigger db1.forges().row(k)]
        db0.forges().has(k) ==> db1.forges().row(k) == db0.forges().row(k)
    &&& forall|k: KeyView|
        #![trigger db1.forges().row(k)]
        db1.forges().has(k) && !db0.forges().has(k) ==> forge_learned(
            forges,
            forges.len() as int,
            k,
            db1.forges().row(k),
            peer.origin,
        )
    &&& (forall|k: KeyView| forge_listed(forges, forges.len() as int, k) ==> db0.forges().has(k))
        ==> db1.forges() == db0.forges()
    &&& db1.imported_words().has(seq![peer.href])
    &&& db1.imported_words().row(seq![peer.href])@ == mini_index
    &&& forall|k: KeyView|
        k != seq![peer.href] ==> (db1.imported_words().has(k) <==> db0.imported_words().has(k))
            && (db0.imported_words().has(k) ==> db1.imported_words().row(k)
            == db0.imported_words().row(k))
    &&& db1.users() == db0.users()
    &&& db1.repositories() == db0.repositories()
    &&& db1.challenges() == db0.challenges()
    &&& db1.words() == db0.words()
}

/// For each of `forges` whether the store holds a forge at its URL.
pub fn look_up_forges(forges: &Vec<Forge>, db: &Database) -> (known: Vec<bool>)
    requires
        db.wf(),
    ensures
        known.len() == forges.len(),
        forall|i: int|
            0 <= i < forges.len() ==> #[trigger] known@[i] == (url_href(forges@[i].url@) is Some
                && db.forges().has(forge_key(url_origin(forges@[i].url@)))),
{
    let mut known: Vec<bool> = Vec::new();
    let mut i: usize = 0;
    while i < forges.len()
        invariant
            db.wf(),
            i <= forges.len(),
            known.len() == i,
            forall|k: int|
                0 <= k < i ==> #[trigger] known@[k] == (url_href(forges@[k].url@) is Some
                    && db.forges().has(forge_key(url_origin(forges@[k].url@)))),
        decreases forges.len() - i,
    {
        let there = match Url::parse(forges[i].url.as_str()) {
            Ok(u) => match db.forge_exists(&u) {
                Ok(b) => b,
                Err(_) => false,
            },
            Err(_) => false,
        };
        known.push(there);
        i = i + 1;
    }
    known
}

/// Introduces the peer at `peer` to the store: the peer is registered,
/// its forges `forges` are imported, and its mini-index `mini_index`
/// takes the place of the one that was imported from it before.
pub fn introduce(db: &mut Database, peer: &Url, forges: &Vec<Forge>, mini_index: &str) -> (r: DBResult<
    (),
>)
    requires
        old(db).wf(),
    ensures
        final(db).wf(),
        r is Ok,
        introduced(*old(db), peer@, forges@, mini_index@, *final(db)),
{
    let _ = db.add_starchart_to_introducer(peer);
    proof {
        let keys0 = old(db).introduced().keys();
        let k0 = seq![peer@.href];
        assert forall|k: KeyView|
            #![trigger db.introduced().has(k)]
            db.introduced().has(k) <==> old(db).introduced().has(k) || k == k0 by {
            if !keys0.contains(k0) {
                let pushed = keys0.push(k0);
                if keys0.contains(k) {
                    let j = keys0.index_of(k);
                    assert(pushed[j] == k);
                }
                assert(pushed[pushed.len() - 1] == k0);
            }
        }
    }
    let known = look_up_forges(forges, db);
    let chosen = select_forges(forges, &known);
    let ghost flags = wanted(forges@, known@);
    let ghost start = *db;
    let mut i: usize = 0;
    while i < chosen.len()
        invariant
            db.wf(),
            i <= chosen.len(),
            chosen@ == kept(forges@, flags),
            flags == wanted(forges@, known@),
            db.same_but_forges(&start),
            forall|k: KeyView|
                #![trigger db.forges().has(k)]
                db.forges().has(k) <==> start.forges().has(k) || forge_listed(chosen@, i as int, k),
            forall|k: KeyView|
                #![trigger db.forges().row(k)]
                start.forges().has(k) ==> db.forges().row(k) == start.forges().row(k),
            forall|k: KeyView|
                #![trigger db.forges().row(k)]
                db.forges().has(k) && !start.forges().has(k) ==> forge_learned(
                    chosen@,
                    i as int,
                    k,
                    db.forges().row(k),
                    peer@.origin,
                ),
            i == 0 ==> db.forges() == start.forges(),
        decreases chosen.len() - i,
    {
        let f = &chosen[i];
        let ghost before = *db;
        match Url::parse(f.url.as_str()) {
            Ok(u) => {
                let msg = CreateForge {
                    url: u,
                    forge_type: f.forge_type,
                    starchart_url: Some(peer.origin()),
                };
                let made = db.create_forge_instance(&msg);
                proof {
                    let key = forge_key(url_origin(f.url@));
                    if made is Ok {
                        let row = db.forges().rows().last();
                        assert(db.forges().rows() =~= before.forges().rows().push(row));
                        before.forges().lemma_pushed(&db.forges(), key, row);
                    }
                    assert forall|k: KeyView|
                        #![trigger db.forges().has(k)]
                        db.forges().has(k) <==> start.forges().has(k) || forge_listed(
                            chosen@,
                            i + 1,
                            k,
                        ) by {
                        assert(db.forges().map().contains_key(k) <==> db.forges().has(k));
                        assert(before.forges().map().contains_key(k) <==> before.forges().has(k));
                        if forge_listed(chosen@, i + 1, k) {
                            let j = choose|j: int|
                                0 <= j < i + 1 && url_href((#[trigger] chosen@[j]).url@) is Some
                                    && k == forge_key(url_origin(chosen@[j].url@));
                            if j < i {
                                assert(forge_listed(chosen@, i as int, k));
                            }
                        }
                        if forge_listed(chosen@, i as int, k) {
                            let j = choose|j: int|
                                0 <= j < i && url_href((#[trigger] chosen@[j]).url@) is Some && k
                                    == forge_key(url_origin(chosen@[j].url@));
                            assert(0 <= j < i + 1 && url_href(chosen@[j].url@) is Some);
                        }
                        if k == key {
                            assert(0 <= i < i + 1 && url_href(chosen@[i as int].url@) is Some);
                        }
                    }
                    assert forall|k: KeyView|
                        #![trigger db.forges().row(k)]
                        (start.forges().has(k) ==> db.forges().row(k) == start.forges().row(k))
                            && (db.forges().has(k) && !start.forges().has(k) ==> forge_learned(
                            chosen@,
                            i + 1,
                            k,
                            db.forges().row(k),
                            peer@.origin,
                        )) by {
                        assert(db.forges().map().contains_key(k) <==> db.forges().has(k));
                        assert(before.forges().map().contains_key(k) <==> before.forges().has(k));
                        if db.forges().has(k) {
                            assert(db.forges().map()[k] == db.forges().row(k));
                        }
                        if before.forges().has(k) {
                            assert(before.forges().map()[k] == before.forges().row(k));
                        }
                        if db.forges().has(k) && !start.forges().has(k) {
                            if before.forges().has(k) {
                                let row = before.forges().row(k);
                                assert(forge_learned(chosen@, i as int, k, row, peer@.origin));
                                let j = choose|j: int|
                                    0 <= j < i && url_href((#[trigger] chosen@[j]).url@) is Some
                                        && k == forge_key(url_origin(chosen@[j].url@))
                                        && row.forge_type == chosen@[j].forge_type;
                                assert(0 <= j < i + 1 && url_href(chosen@[j].url@) is Some);
                            } else {
                                assert(k == key);
                                assert(0 <= i < i + 1 && url_href(chosen@[i as int].url@) is Some);
                            }
                        }
                    }
                }
            },
            Err(_) => {
                proof {
                    lemma_kept(forges@, flags, chosen@[i as int]);
                }
            },
        }
        i = i + 1;
    }
    proof {
        let n = forges@.len() as int;
        assert forall|k: KeyView|
            forge_listed(chosen@, chosen@.len() as int, k) || start.forges().has(k)
                <==> forge_listed(forges@, n, k) || start.forges().has(k) by {
            if forge_listed(chosen@, chosen@.len() as int, k) {
                let j = choose|j: int|
                    0 <= j < chosen@.len() && url_href((#[trigger] chosen@[j]).url@) is Some && k
                        == forge_key(url_origin(chosen@[j].url@));
                lemma_kept(forges@, flags, chosen@[j]);
                let t = choose|t: int| 0 <= t < n && flags[t] && #[trigger] forges@[t] == chosen@[j];
                assert(url_href(forges@[t].url@) is Some);
            }
            if forge_listed(forges@, n, k) && !start.forges().has(k) {
                let t = choose|t: int|
                    0 <= t < n && url_href((#[trigger] forges@[t]).url@) is Some && k == forge_key(
                        url_origin(forges@[t].url@),
                    );
                assert(flags[t]);
                lemma_kept(forges@, flags, forges@[t]);
                assert(chosen@.contains(forges@[t]));
                let j = chosen@.index_of(forges@[t]);
                assert(chosen@[j] == forges@[t]);
            }
        }
        assert forall|k: KeyView|
            #![trigger db.forges().row(k)]
            db.forges().has(k) && !start.forges().has(k) implies forge_learned(
            forges@,
            n,
            k,
            db.forges().row(k),
            peer@.origin,
        ) by {
            let row = db.forges().row(k);
            assert(forge_learned(chosen@, chosen@.len() as int, k, row, peer@.origin));
            let j = choose|j: int|
                0 <= j < chosen@.len() && url_href((#[trigger] chosen@[j]).url@) is Some && k
                    == forge_key(url_origin(chosen@[j].url@)) && row.forge_type
                    == chosen@[j].forge_type;
            lemma_kept(forges@, flags, chosen@[j]);
            assert(chosen@.contains(chosen@[j]));
            let t = choose|t: int| 0 <= t < n && flags[t] && #[trigger] forges@[t] == chosen@[j];
            assert(0 <= t < n && url_href(forges@[t].url@) is Some);
        }
        if forall|k: KeyView| forge_listed(forges@, n, k) ==> old(db).forges().has(k) {
            if chosen@.len() > 0 {
                lemma_kept(forges@, flags, chosen@[0]);
                let t = choose|t: int| 0 <= t < n && flags[t] && #[trigger] forges@[t] == chosen@[0];
                assert(forge_listed(forges@, n, forge_key(url_origin(forges@[t].url@))));
            }
        }
    }
    let _ = db.import_mini_index(peer, mini_index);
    Ok(())
}

/// Introducing a peer twice, with the list of its forges unchanged, leaves
/// the forges of the store as the first introduction left them, none of
/// them twice; and the mini-index held for the peer is the one that the
/// peer exported the second time, with nothing of the first.
pub proof fn lemma_reintroduction(
    db0: Database,
    peer: UrlView,
    forges: Seq<Forge>,
    first_index: Seq<char>,
    db1: Database,
    second_index: Seq<char>,
    db2: Database,
)
    requires
        introduced(db0, peer, forges, first_index, db1),
        introduced(db1, peer, forges, second_index, db2),
    ensures
        db2.forges() == db1.forges(),
        db2.introduced().has(seq![peer.href]),
        db2.imported_words().row(seq![peer.href])@ == second_index,
{
}

} // verus!

//! The federated search dispatcher: the pattern that a query becomes, the
//! peers that are asked under their rate budget, and the order of the
//! results.

use vstd::prelude::*;
use crate::counter::{Count, Counter, CounterView};
use crate::db::Repository;
use crate::errors::{ServiceError, ServiceResult};
use crate::master::{Master, SiteView};
use crate::store::Database;
use crate::text::{has_char, join3, owned, texts};
use crate::weburl::{url_href, url_origin, Url};

verus! {

/// The decay window, in seconds, of the counter that is made for a peer.
pub const SEARCH_DURATION: u64 = 54;

/// The count of recent searches above which a peer is not asked.
pub const SEARCH_CEILING: u32 = 50;

/// The pattern that a query becomes: the query itself where it holds a
/// wildcard marker, else the query between two wildcard markers.
pub open spec fn normalized(query: Seq<char>) -> Seq<char> {
    if query.contains('*') {
        query
    } else {
        seq!['*'] + query + seq!['*']
    }
}

/// Makes a query a substring-match pattern.
pub fn normalize_query(query: &str) -> (r: String)
    ensures
        r@ == normalized(query@),
{
    if has_char(query, '*') {
        owned(query)
    } else {
        proof {
            reveal_strlit("*");
        }
        assert("*"@ =~= seq!['*']);
        join3("*", query, "*")
    }
}

/// The counter of `peer` once one more search is counted for it at `now`:
/// the searches whose time has come decay first. A peer without a counter
/// gets a fresh one.
pub open spec fn counted(sites: Map<Seq<char>, SiteView>, peer: Seq<char>, now: u64) -> CounterView {
    (if sites.contains_key(peer) {
        sites[peer].counter
    } else {
        CounterView::fresh(SEARCH_DURATION)
    }).searched(now)
}

/// The sites once one more search is counted for `peer`.
pub open spec fn asked(sites: Map<Seq<char>, SiteView>, peer: Seq<char>, now: u64) -> Map<
    Seq<char>,
    SiteView,
> {
    sites.insert(peer, SiteView { touched: true, counter: counted(sites, peer, now) })
}

/// The sites after the dispatch of one search to `peers`, and the peers
/// that are asked. For each peer in turn that is not imported, one more
/// search is counted; the peer is asked unless its count is then over
/// the ceiling. An imported peer is passed over.
pub open spec fn dispatched(
    sites: Map<Seq<char>, SiteView>,
    peers: Seq<Seq<char>>,
    imported: Seq<bool>,
    now: u64,
) -> (Map<Seq<char>, SiteView>, Seq<Seq<char>>)
    decreases peers.len(),
{
    if peers.len() == 0 {
        (sites, Seq::empty())
    } else {
        let (before, targets) = dispatched(sites, peers.drop_last(), imported.drop_last(), now);
        let peer = peers.last();
        if imported.last() {
            (before, targets)
        } else {
            (
                asked(before, peer, now),
                if counted(before, peer, now).count.search_threshold <= SEARCH_CEILING {
                    targets.push(peer)
                } else {
                    targets
                },
            )
        }
    }
}

/// No peer is asked that is imported: each peer that is asked is one of
/// `peers` that is not imported.
pub proof fn lemma_imported_peers_are_not_asked(
    sites: Map<Seq<char>, SiteView>,
    peers: Seq<Seq<char>>,
    imported: Seq<bool>,
    now: u64,
    j: int,
)
    requires
        imported.len() == peers.len(),
        0 <= j < dispatched(sites, peers, imported, now).1.len(),
    ensures
        exists|i: int|
            0 <= i < peers.len() && !imported[i] && #[trigger] peers[i] == dispatched(
                sites,
                peers,
                imported,
                now,
            ).1[j],
    decreases peers.len(),
{
    if peers.len() > 0 {
        let before = dispatched(sites, peers.drop_last(), imported.drop_last(), now).1;
        if j < before.len() {
            lemma_imported_peers_are_not_asked(
                sites,
                peers.drop_last(),
                imported.drop_last(),
                now,
                j,
            );
            let i = choose|i: int|
                0 <= i < peers.drop_last().len() && !imported.drop_last()[i]
                    && #[trigger] peers.drop_last()[i] == before[j];
            assert(peers[i] == before[j] && !imported[i]);
        } else {
            let i = peers.len() - 1;
            assert(peers[i] == dispatched(sites, peers, imported, now).1[j] && !imported[i]);
        }
    }
}

/// Counts one search for each of `peers` that is not imported, making a
/// counter for a peer that has none, and answers the peers that are to be
/// asked: see `dispatched`.
pub fn dispatch(master: &mut Master, peers: &Vec<String>, imported: &Vec<bool>, now: u64) -> (targets:
    Vec<String>)
    requires
        old(master).wf(),
        imported.len() == peers.len(),
    ensures
        final(master).wf(),
        final(master).gc() == old(master).gc(),
        (final(master).sites(), texts(targets@)) == dispatched(
            old(master).sites(),
            texts(peers@),
            imported@,
            now,
        ),
{
    let ghost all = texts(peers@);
    let mut targets: Vec<String> = Vec::new();
    let mut i: usize = 0;
    proof {
        assert(all.take(0) =~= Seq::<Seq<char>>::empty());
        assert(texts(targets@) =~= Seq::<Seq<char>>::empty());
    }
    while i < peers.len()
        invariant
            master.wf(),
            master.gc() == old(master).gc(),
            imported.len() == peers.len(),
            all == texts(peers@),
            i <= peers.len(),
            (master.sites(), texts(targets@)) == dispatched(
                old(master).sites(),
                all.take(i as int),
                imported@.take(i as int),
                now,
            ),
        decreases peers.len() - i,
    {
        proof {
            assert(all.take(i + 1).drop_last() =~= all.take(i as int));
            assert(imported@.take(i + 1).drop_last() =~= imported@.take(i as int));
            assert(all.take(i + 1).last() == peers@[i as int]@);
            assert(imported@.take(i + 1).last() == imported@[i as int]);
        }
        if !imported[i] {
            let peer = peers[i].as_str();
            let ghost before = master.sites();
            let count = match master.add_search(peer, now) {
                Some(count) => count,
                None => {
                    let fresh = Counter::from(Count { search_threshold: 0, duration: SEARCH_DURATION });
                    master.add_site(fresh, peers[i].clone());
                    match master.add_search(peer, now) {
                        Some(count) => count,
                        None => 0,
                    }
                },
            };
            proof {
                assert(master.sites() =~= asked(before, peer@, now));
            }
            if count <= SEARCH_CEILING {
                let ghost old_targets = texts(targets@);
                targets.push(peers[i].clone());
                assert(texts(targets@) =~= old_targets.push(peer@));
            }
        }
        i = i + 1;
    }
    proof {
        assert(all.take(peers.len() as int) =~= all);
        assert(imported@.take(peers.len() as int) =~= imported@);
    }
    targets
}

/// The results of the peers, one peer after the other.
pub open spec fn flattened(remote: Seq<Vec<Repository>>) -> Seq<Repository>
    decreases remote.len(),
{
    if remote.len() == 0 {
        Seq::empty()
    } else {
        flattened(remote.drop_last()) + remote.last()@
    }
}

/// Puts the results together: those of the peers in the order in which
/// they came, then those of the local store; nothing is taken out.
pub fn merge_results(remote: Vec<Vec<Repository>>, local: Vec<Repository>) -> (all: Vec<Repository>)
    ensures
        all@ == flattened(remote@) + local@,
{
    let ghost given = remote@;
    let mut remote = remote;
    let mut all: Vec<Repository> = Vec::new();
    let mut done: usize = 0;
    let total = remote.len();
    proof {
        assert(given.take(0) =~= Seq::<Vec<Repository>>::empty());
        assert(remote@ =~= given.skip(0));
    }
    while done < total
        invariant
            total == given.len(),
            done <= total,
            remote@ == given.skip(done as int),
            all@ == flattened(given.take(done as int)),
        decreases total - done,
    {
        let mut next = remote.remove(0);
        proof {
            assert(next == given[done as int]);
            assert(remote@ =~= given.skip(done + 1));
            assert(given.take(done + 1).drop_last() =~= given.take(done as int));
            assert(given.take(done + 1).last() == given[done as int]);
        }
        all.append(&mut next);
        done = done + 1;
    }
    proof {
        assert(given.take(total as int) =~= given);
    }
    let mut local = local;
    all.append(&mut local);
    all
}

/// What the local part of a search hands to its driver.
#[derive(Debug)]
pub struct SearchPlan {
    /// the pattern that the query became, which is sent to each peer
    pub query: String,
    /// the results of the local store
    pub local: Vec<Repository>,
    /// the peers that are to be asked
    pub targets: Vec<String>,
}

/// For each of `peers` whether the forges of the peer at that URL are in
/// the store; a text that is no URL counts as not imported.
pub open spec fn imported_flags(db: Database, peers: Seq<Seq<char>>) -> Seq<bool> {
    Seq::new(
        peers.len(),
        |i: int| url_href(peers[i]) is Some && db.imported_from(url_origin(peers[i])),
    )
}

/// Whether each of `peers` is a URL.
pub open spec fn are_urls(peers: Seq<Seq<char>>) -> bool {
    forall|i: int| 0 <= i < peers.len() ==> url_href(#[trigger] peers[i]) is Some
}

/// A store into which no mini-index was imported surfaces no peer, so
/// every search over it succeeds.
pub proof fn lemma_nothing_imported_nothing_surfaced(db: Database, query: Seq<char>)
    requires
        db.wf(),
        db.imported_words().keys().len() == 0,
    ensures
        db.surfaced(query) == Seq::<Seq<char>>::empty(),
        are_urls(db.surfaced(query)),
{
    db.imported_words().lemma_len();
    assert(db.index_flags(crate::store::pattern_core(query)).len() == 0);
    assert(db.surfaced(query) =~= Seq::<Seq<char>>::empty());
}

/// The local part of a federated search over the store `db`: the query
/// is made a pattern, the store is searched, and one search is counted
/// for each peer that the mini-indexes surface for the pattern and whose
/// forges are not in the store; those of them that are within their
/// budget are the peers to ask. The search succeeds exactly where every
/// peer that is surfaced is a URL; else nothing is counted.
pub fn search_repository(db: &Database, master: &mut Master, query: &str, now: u64) -> (r: ServiceResult<
    SearchPlan,
>)
    requires
        db.wf(),
        old(master).wf(),
    ensures
        final(master).wf(),
        final(master).gc() == old(master).gc(),
        r is Ok <==> are_urls(db.surfaced(normalized(query@))),
        match r {
            Ok(plan) => {
                let peers = db.surfaced(normalized(query@));
                &&& plan.query@ == normalized(query@)
                &&& db.search_repository_spec(plan.query@, plan.local@)
                &&& (final(master).sites(), texts(plan.targets@)) == dispatched(
                    old(master).sites(),
                    peers,
                    imported_flags(*db, peers),
                    now,
                )
                &&& forall|j: int|
                    0 <= j < plan.targets@.len() ==> !db.imported_from(
                        url_origin((#[trigger] plan.targets@[j])@),
                    )
            },
            Err(ServiceError::NotAUrl) => final(master).sites() == old(master).sites(),
            Err(_) => false,
        },
{
    let pattern = normalize_query(query);
    let local = match db.search_repository(pattern.as_str()) {
        Ok(found) => found,
        Err(_) => Vec::new(),
    };
    let peers = match db.search_mini_index(pattern.as_str()) {
        Ok(found) => found,
        Err(_) => Vec::new(),
    };
    let mut imported: Vec<bool> = Vec::new();
    let mut i: usize = 0;
    while i < peers.len()
        invariant
            db.wf(),
            i <= peers.len(),
            imported.len() == i,
            *master == *old(master),
            master.wf(),
            pattern@ == normalized(query@),
            texts(peers@) == db.surfaced(pattern@),
            forall|k: int| 0 <= k < i ==> url_href((#[trigger] peers@[k])@) is Some,
            forall|k: int|
                0 <= k < i ==> #[trigger] imported@[k] == db.imported_from(
                    url_origin(peers@[k]@),
                ),
        decreases peers.len() - i,
    {
        match Url::parse(peers[i].as_str()) {
            Ok(url) => {
                let there = match db.is_starchart_imported(&url) {
                    Ok(b) => b,
                    Err(_) => false,
                };
                imported.push(there);
            },
            Err(_) => {
                assert(texts(peers@)[i as int] == peers@[i as int]@);
                return Err(ServiceError::NotAUrl);
            },
        }
        i = i + 1;
    }
    let targets = dispatch(master, &peers, &imported, now);
    proof {
        assert forall|k: int| 0 <= k < texts(peers@).len() implies url_href(
            #[trigger] texts(peers@)[k],
        ) is Some by {
            assert(texts(peers@)[k] == peers@[k]@);
        }
        assert(imported@ =~= imported_flags(*db, texts(peers@)));
        assert forall|j: int| 0 <= j < targets@.len() implies !db.imported_from(
            url_origin((#[trigger] targets@[j])@),
        ) by {
            lemma_imported_peers_are_not_asked(
                old(master).sites(),
                texts(peers@),
                imported@,
                now,
                j,
            );
            let i = choose|i: int|
                0 <= i < peers@.len() && !imported@[i] && #[trigger] texts(peers@)[i] == dispatched(
                    old(master).sites(),
                    texts(peers@),
                    imported@,
                    now,
                ).1[j];
            assert(texts(targets@)[j] == targets@[j]@);
        }
    }
    Ok(SearchPlan { query: pattern, local, targets })
}

} // verus!

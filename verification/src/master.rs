//! The peer registry: one counter of recent searches for each peer, made
//! when first needed and collected once it is idle.

use vstd::prelude::*;
use crate::counter::{Count, Counter, CounterView};
use crate::table::{key1, Table};
use crate::text::texts;

verus! {

/// Message to rename a counter
#[derive(Debug)]
pub struct Rename {
    /// the name under which the counter stands
    pub name: String,
    /// the name under which it is to stand
    pub rename_to: String,
}

/// The counter of one peer in the registry.
#[derive(Debug)]
pub struct Site {
    /// whether the counter was read since it was added
    pub touched: bool,
    /// the counter
    pub counter: Counter,
}

/// What the registry holds for one peer.
pub struct SiteView {
    /// whether the counter was read since it was added
    pub touched: bool,
    /// the counter
    pub counter: CounterView,
}

impl View for Site {
    type V = SiteView;

    open spec fn view(&self) -> SiteView {
        SiteView { touched: self.touched, counter: self.counter@ }
    }
}

impl SiteView {
    /// The site once the searches have decayed whose time has come.
    pub open spec fn expired(self, now: u64) -> SiteView {
        SiteView { touched: self.touched, counter: self.counter.expired(now) }
    }

    /// Whether the site is collected: it counts no search and was read at
    /// least once.
    pub open spec fn idle(self) -> bool {
        self.counter.count.search_threshold == 0 && self.touched
    }
}

/// The sites after a sweep at `now`: in each the searches have decayed
/// whose time had come, and the sites that are then idle are gone.
pub open spec fn swept(sites: Map<Seq<char>, SiteView>, now: u64) -> Map<Seq<char>, SiteView> {
    Map::new(
        |id: Seq<char>| sites.contains_key(id) && !sites[id].expired(now).idle(),
        |id: Seq<char>| sites[id].expired(now),
    )
}

/// A counter that was read, on which every search decays, is collected by
/// the first sweep that comes a decay window or more after the latest
/// search; a counter that was never read is not collected.
pub proof fn lemma_idle_counter_is_collected(sites: Map<Seq<char>, SiteView>, id: Seq<char>, now: u64)
    requires
        sites.contains_key(id),
        sites[id].counter.wf(),
    ensures
        sites[id].touched && sites[id].counter.decays() && now >= sites[id].counter.latest
            + sites[id].counter.count.duration ==> !swept(sites, now).contains_key(id),
        !sites[id].touched ==> swept(sites, now).contains_key(id),
{
    if sites[id].counter.decays() && now >= sites[id].counter.latest
        + sites[id].counter.count.duration {
        crate::counter::lemma_count_returns_to_zero(sites[id].counter, now);
    }
}

/// The registry of the counters, by the names of the peers.
pub struct Master {
    sites: Table<Site>,
    gc: u64,
}

impl Master {
    /// The sites by the names of their peers.
    pub closed spec fn sites(&self) -> Map<Seq<char>, SiteView> {
        Map::new(
            |id: Seq<char>| self.sites.has(seq![id]),
            |id: Seq<char>| self.sites.row(seq![id])@,
        )
    }

    /// The seconds from one sweep to the next.
    pub closed spec fn gc(&self) -> u64 {
        self.gc
    }

    /// Each site stands under one name, and each counter is well-formed.
    pub closed spec fn wf(&self) -> bool {
        &&& self.sites.wf()
        &&& forall|i: int|
            0 <= i < self.sites.keys().len() ==> (#[trigger] self.sites.keys()[i]).len() == 1
        &&& forall|i: int|
            0 <= i < self.sites.rows().len() ==> (#[trigger] self.sites.rows()[i]).counter@.wf()
    }

    /// The counter of each site is well-formed.
    pub proof fn lemma_sites_wf(&self, id: Seq<char>)
        requires
            self.wf(),
            self.sites().contains_key(id),
        ensures
            self.sites()[id].counter.wf(),
    {
        self.sites.lemma_len();
        let i = self.sites.position(seq![id]);
        assert(self.sites.keys()[i] == seq![id]);
        assert(self.sites.rows()[i].counter@.wf());
    }

    /// What follows for the sites where the table has a row put under a
    /// name.
    proof fn lemma_put(&self, next: &Master, id: Seq<char>, site: Site)
        requires
            self.wf(),
            next.sites.wf(),
            site.counter@.wf(),
            next.sites.map() == self.sites.map().insert(seq![id], site),
        ensures
            next.sites.wf() && next.gc == self.gc ==> next.wf() && next.gc() == self.gc(),
            next.sites() == self.sites().insert(id, site@),
    {
        let key = seq![id];
        self.sites.lemma_len();
        next.sites.lemma_len();
        assert forall|i: int| 0 <= i < next.sites.keys().len() implies (
        #[trigger] next.sites.keys()[i]).len() == 1 && next.sites.rows()[i].counter@.wf() by {
            let k = next.sites.keys()[i];
            next.sites.lemma_position(i);
            assert(next.sites.map().contains_key(k));
            assert(next.sites.map()[k] == next.sites.rows()[i]);
            if k != key {
                assert(self.sites.map().contains_key(k));
                let j = self.sites.position(k);
                assert(self.sites.keys()[j] == k);
                assert(self.sites.map()[k] == self.sites.rows()[j]);
                assert(self.sites.rows()[j].counter@.wf());
            }
        }
        assert forall|i: int| 0 <= i < next.sites.rows().len() implies (
        #[trigger] next.sites.rows()[i]).counter@.wf() by {
            assert(next.sites.keys()[i].len() == 1);
        }
        assert forall|x: Seq<char>| #[trigger]
            next.sites().contains_key(x) <==> self.sites().contains_key(x) || x == id by {
            assert(seq![x][0] == x && seq![id][0] == id);
            assert(next.sites.map().contains_key(seq![x]) <==> next.sites.has(seq![x]));
            assert(self.sites.map().contains_key(seq![x]) <==> self.sites.has(seq![x]));
        }
        assert forall|x: Seq<char>| #[trigger] next.sites().contains_key(x) implies next.sites()[x]
            == self.sites().insert(id, site@)[x] by {
            assert(seq![x][0] == x && seq![id][0] == id);
            assert(next.sites.map()[seq![x]] == next.sites.row(seq![x]));
            if x != id {
                assert(self.sites.map()[seq![x]] == self.sites.row(seq![x]));
            }
        }
        assert(next.sites() =~= self.sites().insert(id, site@));
    }

    /// What follows for the sites where the table has the row under a
    /// name taken out.
    proof fn lemma_taken(&self, next: &Master, id: Seq<char>)
        requires
            self.wf(),
            next.sites.wf(),
            next.sites.map() == self.sites.map().remove(seq![id]),
        ensures
            next.sites.wf() && next.gc == self.gc ==> next.wf() && next.gc() == self.gc(),
            next.sites() == self.sites().remove(id),
    {
        let key = seq![id];
        self.sites.lemma_len();
        next.sites.lemma_len();
        assert forall|i: int| 0 <= i < next.sites.keys().len() implies (
        #[trigger] next.sites.keys()[i]).len() == 1 && next.sites.rows()[i].counter@.wf() by {
            let k = next.sites.keys()[i];
            next.sites.lemma_position(i);
            assert(next.sites.map().contains_key(k));
            assert(next.sites.map()[k] == next.sites.rows()[i]);
            assert(self.sites.map().contains_key(k));
            let j = self.sites.position(k);
            assert(self.sites.keys()[j] == k);
            assert(self.sites.map()[k] == self.sites.rows()[j]);
            assert(self.sites.rows()[j].counter@.wf());
        }
        assert forall|i: int| 0 <= i < next.sites.rows().len() implies (
        #[trigger] next.sites.rows()[i]).counter@.wf() by {
            assert(next.sites.keys()[i].len() == 1);
        }
        assert forall|x: Seq<char>| #[trigger]
            next.sites().contains_key(x) <==> self.sites().contains_key(x) && x != id by {
            assert(seq![x][0] == x && seq![id][0] == id);
            assert(next.sites.map().contains_key(seq![x]) <==> next.sites.has(seq![x]));
            assert(self.sites.map().contains_key(seq![x]) <==> self.sites.has(seq![x]));
        }
        assert forall|x: Seq<char>| #[trigger] next.sites().contains_key(x) implies next.sites()[x]
            == self.sites().remove(id)[x] by {
            assert(seq![x][0] == x && seq![id][0] == id);
            assert(next.sites.map()[seq![x]] == next.sites.row(seq![x]));
            assert(self.sites.map()[seq![x]] == self.sites.row(seq![x]));
        }
        assert(next.sites() =~= self.sites().remove(id));
    }

    /// Where the table holds a row under a name, the sites hold its view.
    proof fn lemma_site_at(&self, id: Seq<char>, i: int)
        requires
            self.wf(),
            0 <= i < self.sites.keys().len(),
            self.sites.keys()[i] == seq![id],
        ensures
            self.sites().contains_key(id),
            self.sites()[id] == self.sites.rows()[i]@,
            self.sites.rows()[i].counter@.wf(),
            i < self.sites.rows().len(),
    {
        self.sites.lemma_len();
        self.sites.lemma_position(i);
    }

    /// Puts `site` under the name `id`, in the place of what stands there.
    fn put(&mut self, id: &str, site: Site)
        requires
            old(self).wf(),
            site.counter@.wf(),
        ensures
            final(self).wf(),
            final(self).gc() == old(self).gc(),
            final(self).sites() == old(self).sites().insert(id@, site@),
    {
        let key = key1(id);
        proof {
            old(self).sites.lemma_len();
        }
        match self.sites.find(&key) {
            Some(i) => {
                self.sites.replace(i, site);
                proof {
                    old(self).sites.lemma_replaced(&self.sites, i as int, site);
                }
            },
            None => {
                self.sites.insert(key, site);
                proof {
                    old(self).sites.lemma_pushed(&self.sites, seq![id@], site);
                }
            },
        }
        proof {
            old(self).lemma_put(&*self, id@, site);
        }
    }

    /// create new master
    /// accepts a `u64` to configure garbage collection period
    pub fn new(gc: u64) -> (m: Self)
        ensures
            m.wf(),
            m.gc() == gc,
            m.sites() == Map::<Seq<char>, SiteView>::empty(),
    {
        let m = Master { sites: Table::new(), gc };
        assert(m.sites() =~= Map::<Seq<char>, SiteView>::empty());
        m
    }

    /// The seconds from one sweep to the next.
    pub fn gc_period(&self) -> (r: u64)
        ensures
            r == self.gc(),
    {
        self.gc
    }

    /// add a counter to the registry under the name `id`, as one that was
    /// not read yet. It takes the place of a counter that stands there.
    pub fn add_site(&mut self, counter: Counter, id: String)
        requires
            old(self).wf(),
            counter@.wf(),
        ensures
            final(self).wf(),
            final(self).gc() == old(self).gc(),
            final(self).sites() == old(self).sites().insert(
                id@,
                SiteView { touched: false, counter: counter@ },
            ),
    {
        self.put(id.as_str(), Site { touched: false, counter });
    }

    /// get the state of a counter from the registry, and mark the counter
    /// as read.
    pub fn get_site(&mut self, id: &str) -> (r: Option<Count>)
        requires
            old(self).wf(),
        ensures
            final(self).wf(),
            final(self).gc() == old(self).gc(),
            r is Some <==> old(self).sites().contains_key(id@),
            r matches Some(count) ==> count == old(self).sites()[id@].counter.count && final(self).sites() == old(self).sites().insert(
                id@,
                SiteView { touched: true, counter: old(self).sites()[id@].counter },
            ),
            r is None ==> final(self).sites() == old(self).sites(),
    {
        match self.sites.find(&key1(id)) {
            Some(i) => {
                proof {
                    self.lemma_site_at(id@, i as int);
                }
                let counter = self.sites.get(i).counter.clone();
                let count = counter.count();
                self.put(id, Site { touched: true, counter });
                Some(count)
            },
            None => None,
        }
    }

    /// removes a counter from the registry and hands it back
    pub fn rm_site(&mut self, id: &str) -> (r: Option<Site>)
        requires
            old(self).wf(),
        ensures
            final(self).wf(),
            final(self).gc() == old(self).gc(),
            final(self).sites() == old(self).sites().remove(id@),
            r is Some <==> old(self).sites().contains_key(id@),
            r matches Some(site) ==> site@ == old(self).sites()[id@] && site.counter@.wf(),
    {
        proof {
            old(self).sites.lemma_len();
        }
        let r = self.sites.remove(&key1(id));
        proof {
            if r is Some {
                let i = old(self).sites.position(seq![id@]);
                assert(old(self).sites.keys().contains(seq![id@]));
                old(self).sites.lemma_removed(&self.sites, i);
                old(self).lemma_site_at(id@, i);
            } else {
                assert(self.sites.map() =~= old(self).sites.map().remove(seq![id@]));
            }
            old(self).lemma_taken(&*self, id@);
        }
        r
    }

    /// renames a counter: it stands under the new name from now on, as one
    /// that was not read yet. Where no counter stands under the old name,
    /// nothing changes.
    pub fn rename(&mut self, msg: Rename)
        requires
            old(self).wf(),
        ensures
            final(self).wf(),
            final(self).gc() == old(self).gc(),
            final(self).sites() == (if old(self).sites().contains_key(msg.name@) {
                old(self).sites().remove(msg.name@).insert(
                    msg.rename_to@,
                    SiteView { touched: false, counter: old(self).sites()[msg.name@].counter },
                )
            } else {
                old(self).sites()
            }),
    {
        match self.rm_site(msg.name.as_str()) {
            Some(site) => {
                self.add_site(site.counter, msg.rename_to);
            },
            None => {
                assert(self.sites() =~= old(self).sites());
            },
        }
    }

    /// counts a search, at the time `now`, on the counter that stands
    /// under `id`: the searches whose time has come decay, and the search
    /// is added. The counter is marked as read, and its new count is
    /// answered; `None` where no counter stands there.
    pub fn add_search(&mut self, id: &str, now: u64) -> (r: Option<u32>)
        requires
            old(self).wf(),
        ensures
            final(self).wf(),
            final(self).gc() == old(self).gc(),
            r is Some <==> old(self).sites().contains_key(id@),
            r matches Some(count) ==> {
                let counter = old(self).sites()[id@].counter.searched(now);
                &&& count == counter.count.search_threshold
                &&& final(self).sites() == old(self).sites().insert(
                    id@,
                    SiteView { touched: true, counter },
                )
            },
            r is None ==> final(self).sites() == old(self).sites(),
    {
        match self.sites.find(&key1(id)) {
            Some(i) => {
                proof {
                    self.lemma_site_at(id@, i as int);
                }
                let mut counter = self.sites.get(i).counter.clone();
                let count = counter.add_search(now);
                self.put(id, Site { touched: true, counter });
                Some(count)
            },
            None => None,
        }
    }

    /// the count of the counter that stands under `id`; the counter is
    /// marked as read.
    pub fn get_count(&mut self, id: &str) -> (r: Option<u32>)
        requires
            old(self).wf(),
        ensures
            final(self).wf(),
            final(self).gc() == old(self).gc(),
            r is Some <==> old(self).sites().contains_key(id@),
            r matches Some(count) ==> count == old(self).sites()[id@].counter.count.search_threshold
                && final(self).sites() == old(self).sites().insert(
                id@,
                SiteView { touched: true, counter: old(self).sites()[id@].counter },
            ),
            r is None ==> final(self).sites() == old(self).sites(),
    {
        match self.get_site(id) {
            Some(count) => Some(count.get_searches()),
            None => None,
        }
    }

    /// Lets the searches of every counter decay whose time has come at
    /// `now`, each site staying under its name.
    fn expire_all(&mut self, now: u64)
        requires
            old(self).wf(),
        ensures
            final(self).wf(),
            final(self).gc() == old(self).gc(),
            final(self).sites.keys() == old(self).sites.keys(),
            final(self).sites.rows().len() == old(self).sites.rows().len(),
            forall|i: int|
                0 <= i < old(self).sites.rows().len() ==> (#[trigger] final(self).sites.rows()[i])@
                    == old(self).sites.rows()[i]@.expired(now),
    {
        let mut i: usize = 0;
        proof {
            self.sites.lemma_len();
        }
        while i < self.sites.len()
            invariant
                self.wf(),
                self.gc == old(self).gc,
                self.sites.keys() == old(self).sites.keys(),
                self.sites.rows().len() == old(self).sites.rows().len(),
                self.sites.keys().len() == self.sites.rows().len(),
                i <= self.sites.rows().len(),
                forall|j: int|
                    0 <= j < i ==> (#[trigger] self.sites.rows()[j])@ == old(self).sites.rows()[j]@.expired(
                        now,
                    ),
                forall|j: int|
                    i <= j < self.sites.rows().len() ==> #[trigger] self.sites.rows()[j] == old(self).sites.rows()[j],
            decreases self.sites.rows().len() - i,
        {
            let ghost before = self.sites;
            let site = self.sites.get(i);
            let touched = site.touched;
            let mut counter = site.counter.clone();
            counter.expire(now);
            self.sites.replace(i, Site { touched, counter });
            proof {
                assert forall|j: int| 0 <= j < self.sites.rows().len() implies (
                #[trigger] self.sites.rows()[j]).counter@.wf() by {
                    if j != i {
                        assert(self.sites.rows()[j] == before.rows()[j]);
                    }
                }
                assert forall|j: int| 0 <= j < i + 1 implies (#[trigger] self.sites.rows()[j])@
                    == old(self).sites.rows()[j]@.expired(now) by {
                    if j != i {
                        assert(self.sites.rows()[j] == before.rows()[j]);
                    }
                }
                assert forall|j: int| i + 1 <= j < self.sites.rows().len() implies #[trigger] self.sites.rows()[j]
                    == old(self).sites.rows()[j] by {
                    assert(self.sites.rows()[j] == before.rows()[j]);
                }
            }
            i = i + 1;
        }
    }

    /// The sweep: lets the searches of every counter decay whose time has
    /// come at `now`, and removes the counters that are then idle. It
    /// answers the names of the counters that it removed.
    pub fn clean_up(&mut self, now: u64) -> (removed: Vec<String>)
        requires
            old(self).wf(),
        ensures
            final(self).wf(),
            final(self).gc() == old(self).gc(),
            final(self).sites() == swept(old(self).sites(), now),
            forall|id: Seq<char>|
                texts(removed@).contains(id) <==> old(self).sites().contains_key(id) && old(self).sites()[id].expired(now).idle(),
    {
        self.expire_all(now);
        let ghost mid = self.sites;
        let mut keep: Vec<bool> = Vec::new();
        let mut removed: Vec<String> = Vec::new();
        let mut i: usize = 0;
        proof {
            mid.lemma_len();
            old(self).sites.lemma_len();
        }
        while i < self.sites.len()
            invariant
                self.wf(),
                self.sites == mid,
                mid.keys().len() == mid.rows().len(),
                i <= mid.rows().len(),
                keep@.len() == i,
                forall|j: int| 0 <= j < i ==> #[trigger] keep@[j] == !mid.rows()[j]@.idle(),
                forall|id: Seq<char>|
                    texts(removed@).contains(id) <==> exists|j: int|
                        0 <= j < i && #[trigger] mid.keys()[j] == seq![id] && !keep@[j],
            decreases mid.rows().len() - i,
        {
            let site = self.sites.get(i);
            let idle = site.counter.get_current_search_count() == 0 && site.touched;
            let ghost before = texts(removed@);
            let ghost flags = keep@;
            if idle {
                let key = self.sites.key_at(i);
                assert(mid.keys()[i as int].len() == 1);
                assert(texts(key@)[0] == key@[0]@);
                removed.push(key[0].clone());
            }
            keep.push(!idle);
            proof {
                let name = mid.keys()[i as int][0];
                assert(mid.keys()[i as int] =~= seq![name]);
                if idle {
                    assert(texts(removed@) =~= before.push(name));
                }
                assert forall|id: Seq<char>|
                    texts(removed@).contains(id) <==> exists|j: int|
                        0 <= j < i + 1 && #[trigger] mid.keys()[j] == seq![id] && !keep@[j] by {
                    assert(seq![id][0] == id);
                    if texts(removed@).contains(id) {
                        if before.contains(id) {
                            let j = choose|j: int|
                                0 <= j < i && #[trigger] mid.keys()[j] == seq![id] && !flags[j];
                            assert(0 <= j < i + 1 && mid.keys()[j] == seq![id] && !keep@[j]);
                        } else {
                            let at = texts(removed@).index_of(id);
                            assert(at == before.len());
                            assert(0 <= i < i + 1 && mid.keys()[i as int] == seq![id] && !keep@[i as int]);
                        }
                    }
                    if exists|j: int|
                        0 <= j < i + 1 && #[trigger] mid.keys()[j] == seq![id] && !keep@[j] {
                        let j = choose|j: int|
                            0 <= j < i + 1 && #[trigger] mid.keys()[j] == seq![id] && !keep@[j];
                        if j < i {
                            assert(0 <= j < i && mid.keys()[j] == seq![id] && !flags[j]);
                            assert(before.contains(id));
                            let at = before.index_of(id);
                            assert(texts(removed@)[at] == id);
                        } else {
                            assert(texts(removed@)[before.len() as int] == id);
                        }
                    }
                }
            }
            i = i + 1;
        }
        self.sites.keep(&keep);
        proof {
            let then = old(self).sites;
            mid.lemma_kept_map(&self.sites, keep@);
            self.sites.lemma_len();
            assert forall|j: int| 0 <= j < self.sites.keys().len() implies (
            #[trigger] self.sites.keys()[j]).len() == 1 && self.sites.rows()[j].counter@.wf() by {
                let k = self.sites.keys()[j];
                self.sites.lemma_position(j);
                let j0 = mid.position(k);
                assert(mid.keys()[j0] == k);
                assert(mid.rows()[j0].counter@.wf());
            }
            assert forall|j: int| 0 <= j < self.sites.rows().len() implies (
            #[trigger] self.sites.rows()[j]).counter@.wf() by {
                assert(self.sites.keys()[j].len() == 1);
            }
            assert forall|id: Seq<char>| #[trigger]
                then.has(seq![id]) implies mid.has(seq![id]) && mid.row(seq![id])@ == then.row(
                seq![id],
            )@.expired(now) by {
                let j = then.position(seq![id]);
                assert(then.keys()[j] == seq![id]);
                mid.lemma_position(j);
                then.lemma_position(j);
            }
            assert forall|id: Seq<char>| #[trigger]
                self.sites().contains_key(id) <==> swept(old(self).sites(), now).contains_key(
                    id,
                ) by {
                if mid.has(seq![id]) {
                    let j = mid.position(seq![id]);
                    assert(mid.keys()[j] == seq![id]);
                    assert(then.keys()[j] == seq![id]);
                    then.lemma_position(j);
                }
            }
            assert(self.sites() =~= swept(old(self).sites(), now));
            assert forall|id: Seq<char>|
                texts(removed@).contains(id) <==> old(self).sites().contains_key(id) && old(self).sites()[id].expired(now).idle() by {
                if old(self).sites().contains_key(id) {
                    let j = then.position(seq![id]);
                    assert(then.keys()[j] == seq![id]);
                    then.lemma_position(j);
                    mid.lemma_position(j);
                    if old(self).sites()[id].expired(now).idle() {
                        assert(0 <= j < mid.rows().len() && mid.keys()[j] == seq![id] && !keep@[j]);
                    }
                }
                if texts(removed@).contains(id) {
                    let j = choose|j: int|
                        0 <= j < mid.rows().len() && #[trigger] mid.keys()[j] == seq![id]
                            && !keep@[j];
                    then.lemma_position(j);
                    mid.lemma_position(j);
                }
            }
        }
        removed
    }
}

} // verus!

//! Leaky-bucket counter of recent searches sent to one peer.

use vstd::prelude::*;

verus! {

/// Count of outstanding recent searches and the length of the decay window.
#[derive(Clone, Copy, Debug, PartialEq, Eq, Structural)]
pub struct Count {
    /// searches that have not yet decayed
    pub search_threshold: u32,
    /// decay window in seconds
    pub duration: u64,
}

impl Count {
    /// Increments the search count by one, saturating at the largest value.
    pub fn add_search(&mut self)
        ensures
            final(self).duration == old(self).duration,
            final(self).search_threshold == if old(self).search_threshold < u32::MAX {
                old(self).search_threshold + 1
            } else {
                u32::MAX as int
            },
    {
        if self.search_threshold < u32::MAX {
            self.search_threshold = self.search_threshold + 1;
        }
    }

    /// Decrements the search count by `count`, stopping at zero.
    pub fn decrement_search_by(&mut self, count: u32)
        ensures
            final(self).duration == old(self).duration,
            final(self).search_threshold == if old(self).search_threshold >= count {
                old(self).search_threshold - count
            } else {
                0
            },
    {
        if self.search_threshold >= count {
            self.search_threshold = self.search_threshold - count;
        } else {
            self.search_threshold = 0;
        }
    }

    /// The current search count.
    pub fn get_searches(&self) -> (count: u32)
        ensures
            count == self.search_threshold,
    {
        self.search_threshold
    }
}

/// What a counter holds.
pub struct CounterView {
    /// the searches that have not decayed, and the decay window
    pub count: Count,
    /// the times at which the searches that decay will have decayed
    pub pending: Seq<u64>,
    /// the latest time at which a search was added
    pub latest: u64,
}

/// The time at which a search added at `now` has decayed.
pub open spec fn expiry(now: u64, duration: u64) -> u64 {
    if now + duration <= u64::MAX {
        (now + duration) as u64
    } else {
        u64::MAX
    }
}

impl CounterView {
    /// No more searches decay than are counted, and each decays at most
    /// one window after the latest was added.
    pub open spec fn wf(self) -> bool {
        &&& self.pending.len() <= self.count.search_threshold
        &&& forall|i: int|
            0 <= i < self.pending.len() ==> #[trigger] self.pending[i] <= self.latest
                + self.count.duration
    }

    /// Whether every search that is counted decays.
    pub open spec fn decays(self) -> bool {
        self.pending.len() == self.count.search_threshold
    }

    /// A counter without searches.
    pub open spec fn fresh(duration: u64) -> CounterView {
        CounterView {
            count: Count { search_threshold: 0, duration },
            pending: Seq::empty(),
            latest: 0,
        }
    }

    /// The counter once a search is added at `now`: it counts one more,
    /// and the search decays one window later. At the largest count
    /// nothing is added.
    pub open spec fn added(self, now: u64) -> CounterView {
        if self.count.search_threshold < u32::MAX {
            CounterView {
                count: Count {
                    search_threshold: (self.count.search_threshold + 1) as u32,
                    duration: self.count.duration,
                },
                pending: self.pending.push(expiry(now, self.count.duration)),
                latest: if self.latest < now {
                    now
                } else {
                    self.latest
                },
            }
        } else {
            self
        }
    }

    /// Whether no search is due to decay at `now`.
    pub open spec fn none_due(self, now: u64) -> bool {
        forall|i: int| 0 <= i < self.pending.len() ==> #[trigger] self.pending[i] > now
    }

    /// The searches that have not decayed at `now`.
    pub open spec fn alive(self, now: u64) -> Seq<u64> {
        self.pending.filter(|at: u64| at > now)
    }

    /// The counter once the searches have decayed whose time has come at
    /// `now`: it counts one less for each.
    pub open spec fn expired(self, now: u64) -> CounterView {
        CounterView {
            count: Count {
                search_threshold: (self.count.search_threshold - (self.pending.len()
                    - self.alive(now).len())) as u32,
                duration: self.count.duration,
            },
            pending: self.alive(now),
            latest: self.latest,
        }
    }

    /// The counter once a search is counted at `now`: the searches whose
    /// time has come decay first, and then the search is added.
    pub open spec fn searched(self, now: u64) -> CounterView {
        self.expired(now).added(now)
    }
}

/// The leaky bucket of one peer: each search that is added decays one
/// decay window later.
#[derive(Debug)]
pub struct Counter {
    count: Count,
    pending: Vec<u64>,
    latest: u64,
}

impl View for Counter {
    type V = CounterView;

    closed spec fn view(&self) -> CounterView {
        CounterView { count: self.count, pending: self.pending@, latest: self.latest }
    }
}

impl Clone for Counter {
    fn clone(&self) -> (r: Self)
        ensures
            r@ == self@,
    {
        Counter { count: self.count, pending: self.pending.clone(), latest: self.latest }
    }
}

impl Counter {
    /// A counter that starts from `c`. The searches that `c` counts do not
    /// decay.
    pub fn from(c: Count) -> (r: Counter)
        ensures
            r@.wf(),
            r@ == (CounterView { count: c, pending: Seq::empty(), latest: 0 }),
    {
        Counter { count: c, pending: Vec::new(), latest: 0 }
    }

    /// Counts a search at the time `now` and answers the new count: the
    /// searches whose time has come at `now` decay, and the search is
    /// added to those that are left.
    pub fn add_search(&mut self, now: u64) -> (r: u32)
        requires
            old(self)@.wf(),
        ensures
            final(self)@.wf(),
            final(self)@ == old(self)@.searched(now),
            r == final(self)@.count.search_threshold,
    {
        self.expire(now);
        proof {
            lemma_search_counts_up(self@, now);
        }
        if self.count.search_threshold < u32::MAX {
            let at = now.saturating_add(self.count.duration);
            self.count.add_search();
            self.pending.push(at);
            if self.latest < now {
                self.latest = now;
            }
        }
        self.count.get_searches()
    }

    /// Lets the searches decay whose time has come at `now`.
    pub fn expire(&mut self, now: u64)
        requires
            old(self)@.wf(),
        ensures
            final(self)@.wf(),
            final(self)@ == old(self)@.expired(now),
    {
        let ghost all = self.pending@;
        let mut alive: Vec<u64> = Vec::new();
        let mut gone: u32 = 0;
        let mut i: usize = 0;
        proof {
            reveal(Seq::filter);
            assert(all.take(0) =~= Seq::<u64>::empty());
        }
        while i < self.pending.len()
            invariant
                *self == *old(self),
                self@.wf(),
                all == self.pending@,
                i <= all.len(),
                alive@ == all.take(i as int).filter(|at: u64| at > now),
                gone + alive@.len() == i,
            decreases all.len() - i,
        {
            proof {
                reveal(Seq::filter);
                assert(all.take(i + 1).drop_last() =~= all.take(i as int));
                assert(all.take(i + 1).last() == all[i as int]);
            }
            let at = self.pending[i];
            if at > now {
                alive.push(at);
            } else {
                gone = gone + 1;
            }
            i = i + 1;
        }
        proof {
            assert(all.take(all.len() as int) =~= all);
            lemma_alive(self@, now);
        }
        self.pending = alive;
        self.count.decrement_search_by(gone);
    }

    /// get the counter's current search count
    pub fn get_current_search_count(&self) -> (r: u32)
        ensures
            r == self@.count.search_threshold,
    {
        self.count.get_searches()
    }

    /// The state of the count.
    pub fn count(&self) -> (r: Count)
        ensures
            r == self@.count,
    {
        self.count
    }
}

/// The searches that are alive are some of those that were pending.
pub proof fn lemma_alive(c: CounterView, now: u64)
    requires
        c.wf(),
    ensures
        c.alive(now).len() <= c.pending.len(),
        c.expired(now).wf(),
        c.decays() ==> c.expired(now).decays(),
        forall|k: int| 0 <= k < c.alive(now).len() ==> #[trigger] c.alive(now)[k] > now,
{
    let p = |at: u64| at > now;
    c.pending.lemma_filter_len(p);
    assert forall|k: int| 0 <= k < c.alive(now).len() implies #[trigger] c.alive(now)[k] > now
        && c.alive(now)[k] <= c.latest + c.count.duration by {
        c.pending.lemma_filter_pred(p, k);
        c.pending.lemma_filter_contains_rev(p, c.alive(now)[k]);
        let j = c.pending.index_of(c.alive(now)[k]);
        assert(c.pending[j] == c.alive(now)[k]);
    }
}

/// Where every member of a sequence meets a condition, the members that
/// meet it are the sequence.
pub proof fn lemma_filter_all(s: Seq<u64>, now: u64)
    requires
        forall|i: int| 0 <= i < s.len() ==> #[trigger] s[i] > now,
    ensures
        s.filter(|at: u64| at > now) == s,
    decreases s.len(),
{
    reveal(Seq::filter);
    if s.len() > 0 {
        lemma_filter_all(s.drop_last(), now);
        assert(s.drop_last().push(s.last()) =~= s);
    }
}

/// A counter on which no search is due is left as it is when the due
/// searches decay.
pub proof fn lemma_none_due(c: CounterView, now: u64)
    requires
        c.none_due(now),
    ensures
        c.expired(now) == c,
{
    lemma_filter_all(c.pending, now);
}

/// The first search that is counted on a fresh counter makes the count 1.
pub proof fn lemma_first_search_counts_one(duration: u64, now: u64)
    ensures
        CounterView::fresh(duration).wf(),
        CounterView::fresh(duration).decays(),
        CounterView::fresh(duration).searched(now).count.search_threshold == 1,
{
    let fresh = CounterView::fresh(duration);
    lemma_none_due(fresh, now);
}

/// A search that is added makes the count larger by one, up to the
/// largest count; the counter stays well-formed, and a counter on which
/// every search decays stays one.
pub proof fn lemma_search_counts_up(c: CounterView, now: u64)
    requires
        c.wf(),
    ensures
        c.added(now).wf(),
        c.decays() ==> c.added(now).decays(),
        c.added(now).count.search_threshold >= c.count.search_threshold,
        c.count.search_threshold < u32::MAX ==> c.added(now).count.search_threshold
            == c.count.search_threshold + 1,
{
    if c.count.search_threshold < u32::MAX {
        let next = c.added(now);
        assert forall|i: int| 0 <= i < next.pending.len() implies #[trigger] next.pending[i]
            <= next.latest + next.count.duration by {
            if i < c.pending.len() {
                assert(next.pending[i] == c.pending[i]);
            }
        }
    }
}

/// While no search is due to decay, each search that is counted makes the
/// count larger by one, up to the largest count. Whenever a search is
/// counted, the counter stays well-formed, and a counter on which every
/// search decays stays one.
pub proof fn lemma_count_grows_within_window(c: CounterView, now: u64)
    requires
        c.wf(),
    ensures
        c.searched(now).wf(),
        c.decays() ==> c.searched(now).decays(),
        c.none_due(now) && c.count.search_threshold < u32::MAX ==> c.searched(
            now,
        ).count.search_threshold == c.count.search_threshold + 1,
        c.none_due(now) ==> c.searched(now).count.search_threshold >= c.count.search_threshold,
{
    lemma_alive(c, now);
    lemma_search_counts_up(c.expired(now), now);
    if c.none_due(now) {
        lemma_none_due(c, now);
    }
}

/// The first search that is counted once the decay window has passed
/// since the latest search, on a counter on which every search decays,
/// makes the count 1: the searches before it have decayed.
pub proof fn lemma_search_after_window_counts_one(c: CounterView, now: u64)
    requires
        c.wf(),
        c.decays(),
        now >= c.latest + c.count.duration,
    ensures
        c.searched(now).count.search_threshold == 1,
{
    lemma_count_returns_to_zero(c, now);
}

/// Once a decay window has passed since the latest search was added, with
/// no search added since, the count of a counter on which every search
/// decays is back at zero.
pub proof fn lemma_count_returns_to_zero(c: CounterView, now: u64)
    requires
        c.wf(),
        c.decays(),
        now >= c.latest + c.count.duration,
    ensures
        c.expired(now).count.search_threshold == 0,
        c.expired(now).pending.len() == 0,
{
    lemma_alive(c, now);
    if c.alive(now).len() > 0 {
        let at = c.alive(now)[0];
        let p = |at: u64| at > now;
        c.pending.lemma_filter_contains_rev(p, at);
        let j = c.pending.index_of(at);
        assert(c.pending[j] == at);
    }
}

} // verus!

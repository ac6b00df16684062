//! The crawl engine: which records of a page are written to the store and
//! to the federation export store, and the state machine that takes one
//! forge through its pages.

use vstd::prelude::*;
use crate::db::{CreateForge, Forge, ForgeImplementation};
use crate::forge::{CrawlResp, Keyed};
use crate::table::KeyView;
use crate::weburl::{Url, UrlView};

verus! {

/// Where a record is already present.
#[derive(Clone, Copy, Debug, PartialEq, Eq, Structural)]
pub struct Known {
    /// in the store
    pub store: bool,
    /// in the federation export store
    pub export: bool,
}

/// Where a record is to be created.
#[derive(Clone, Copy, Debug, PartialEq, Eq, Structural)]
pub struct Write {
    /// in the store
    pub store: bool,
    /// in the federation export store
    pub export: bool,
}

/// Whether the identity at position `i` stands at a position before `j`.
pub open spec fn seen_within(keys: Seq<KeyView>, i: int, j: int) -> bool {
    exists|k: int| 0 <= k < j && #[trigger] keys[k] == keys[i]
}

/// Whether the identity at position `i` already stands at an earlier
/// position.
pub open spec fn seen_before(keys: Seq<KeyView>, i: int) -> bool {
    seen_within(keys, i, i)
}

/// What is written for a forge: a forge that the store lacks is created
/// there; one that the store has and the export store lacks is mirrored
/// to the export store.
pub open spec fn forge_write(known: Known) -> Write {
    Write { store: !known.store, export: known.store && !known.export }
}

/// What is written for the record at position `i` of a page: nothing for
/// a record that the page has held before; else the record goes to the
/// store where the store lacks it, and to the export store where either
/// of the two lacks it.
pub open spec fn record_write(keys: Seq<KeyView>, known: Seq<Known>, i: int) -> Write {
    if seen_before(keys, i) {
        Write { store: false, export: false }
    } else {
        Write { store: !known[i].store, export: !known[i].store || !known[i].export }
    }
}

/// What is written for the record at position `i` of an archive that is
/// imported from a peer: nothing for a record that the archive has held
/// before; else the record goes to each store that lacks it.
pub open spec fn import_write(keys: Seq<KeyView>, known: Seq<Known>, i: int) -> Write {
    if seen_before(keys, i) {
        Write { store: false, export: false }
    } else {
        Write { store: !known[i].store, export: !known[i].export }
    }
}

/// What a poll of the one-shot signal to shut down gave.
#[derive(Clone, Copy, Debug, PartialEq, Eq, Structural)]
pub enum Polled {
    /// the value that was sent
    Value(bool),
    /// nothing was sent yet
    Empty,
    /// the sender is gone
    Closed,
}

/// Whether a background task stops: where it was told to, or where the
/// one who could tell it is gone.
pub fn should_stop(polled: Polled) -> (r: bool)
    ensures
        r == match polled {
            Polled::Value(stop) => stop,
            Polled::Empty => false,
            Polled::Closed => true,
        },
{
    match polled {
        Polled::Value(stop) => stop,
        Polled::Empty => false,
        Polled::Closed => true,
    }
}

/// The identities of `items`, one by one.
pub open spec fn keys_of<T: Keyed>(items: Seq<T>) -> Seq<KeyView> {
    Seq::new(items.len(), |i: int| items[i].key())
}

/// Decides for a forge what is written where.
pub fn plan_forge(known: Known) -> (w: Write)
    ensures
        w == forge_write(known),
{
    Write { store: !known.store, export: known.store && !known.export }
}

/// Decides for each record of a page what is written where, given for
/// each where it is present.
pub fn plan<T: Keyed>(items: &Vec<T>, known: &Vec<Known>) -> (writes: Vec<Write>)
    requires
        items.len() == known.len(),
    ensures
        writes.len() == items.len(),
        forall|i: int|
            0 <= i < items.len() ==> writes@[i] == record_write(keys_of(items@), known@, i),
{
    let mut writes: Vec<Write> = Vec::new();
    let mut i: usize = 0;
    while i < items.len()
        invariant
            items.len() == known.len(),
            i <= items.len(),
            writes.len() == i,
            forall|k: int| 0 <= k < i ==> writes@[k] == record_write(keys_of(items@), known@, k),
        decreases items.len() - i,
    {
        let mut seen = false;
        let mut j: usize = 0;
        while j < i
            invariant
                i < items.len(),
                j <= i,
                seen == seen_within(keys_of(items@), i as int, j as int),
            decreases i - j,
        {
            let ghost keys = keys_of(items@);
            let hit = items[j].same_record(&items[i]);
            proof {
                assert(keys[j as int] == items@[j as int].key());
                assert(keys[i as int] == items@[i as int].key());
                if seen_within(keys, i as int, j + 1) && !hit {
                    let k = choose|k: int| 0 <= k < j + 1 && #[trigger] keys[k] == keys[i as int];
                    assert(k < j);
                }
            }
            if hit {
                seen = true;
            }
            j = j + 1;
        }
        let w = if seen {
            Write { store: false, export: false }
        } else {
            Write { store: !known[i].store, export: !known[i].store || !known[i].export }
        };
        writes.push(w);
        i = i + 1;
    }
    writes
}

/// Decides for each record of an archive that is imported from a peer
/// what is written where, given for each where it is present.
pub fn plan_import<T: Keyed>(items: &Vec<T>, known: &Vec<Known>) -> (writes: Vec<Write>)
    requires
        items.len() == known.len(),
    ensures
        writes.len() == items.len(),
        forall|i: int|
            0 <= i < items.len() ==> writes@[i] == import_write(keys_of(items@), known@, i),
{
    let crawled = plan(items, known);
    let mut writes: Vec<Write> = Vec::new();
    let mut i: usize = 0;
    while i < items.len()
        invariant
            items.len() == known.len(),
            crawled.len() == items.len(),
            forall|k: int|
                0 <= k < items.len() ==> crawled@[k] == record_write(keys_of(items@), known@, k),
            i <= items.len(),
            writes.len() == i,
            forall|k: int| 0 <= k < i ==> writes@[k] == import_write(keys_of(items@), known@, k),
        decreases items.len() - i,
    {
        let seen = !crawled[i].store && !crawled[i].export && !(known[i].store && known[i].export);
        let w = if seen {
            Write { store: false, export: false }
        } else {
            Write { store: !known[i].store, export: !known[i].export }
        };
        writes.push(w);
        i = i + 1;
    }
    writes
}

/// What is written for each record of a page, one by one.
pub open spec fn planned(keys: Seq<KeyView>, known: Seq<Known>) -> Seq<Write> {
    Seq::new(keys.len(), |i: int| record_write(keys, known, i))
}

/// Where the crawl of one forge stands.
#[derive(Clone, Copy, Debug, PartialEq, Eq, Structural)]
pub enum Phase {
    /// nothing has been done yet
    Idle,
    /// the stores are being asked whether they know the forge
    Probing,
    /// the forge is being written
    Settling,
    /// a page is being fetched
    Fetching,
    /// the records of a page are being written
    Writing,
    /// the forge had no more pages
    Done,
    /// the crawl was given up for this cycle
    Aborted,
}

/// What the driver of a crawl reports to it.
#[derive(Debug)]
pub enum Event {
    /// the crawl is to begin
    Start,
    /// where the forge is known
    ForgeKnown(Known),
    /// what was to be written has been written
    Written,
    /// the page that was asked for, and for each user and each repository
    /// on it where it is known
    Page { resp: CrawlResp, users: Vec<Known>, repos: Vec<Known> },
    /// the last action failed
    Failed,
}

/// What the crawl asks its driver to do next.
#[derive(Debug)]
pub enum Action {
    /// ask the store and the export store whether they know the forge
    Probe,
    /// create the forge where the write says
    WriteForge(Write),
    /// ask the forge adapter for a page
    Fetch { limit: u64, page: u64, rate_limit: u64 },
    /// create each user and each repository of the page where its write
    /// says, users first
    WritePage { resp: CrawlResp, users: Vec<Write>, repos: Vec<Write> },
    /// nothing: the forge is crawled, over so many pages of repositories
    Finished { pages: u64 },
    /// nothing: the crawl was given up
    Aborted,
}

/// What a crawl holds.
pub struct CrawlView {
    /// the forge
    pub url: UrlView,
    /// the kind of forge
    pub forge_type: ForgeImplementation,
    /// the number of repositories asked for per page
    pub limit: u64,
    /// the seconds to wait between two requests for topics
    pub rate_limit: u64,
    /// where the crawl stands
    pub phase: Phase,
    /// the page that is fetched next, or that was fetched last
    pub page: u64,
}

/// The crawl of one forge: a state machine that its driver feeds with what
/// happened and that answers with what to do next.
pub struct Crawl {
    url: Url,
    forge_type: ForgeImplementation,
    limit: u64,
    rate_limit: u64,
    phase: Phase,
    page: u64,
}

impl View for Crawl {
    type V = CrawlView;

    closed spec fn view(&self) -> CrawlView {
        CrawlView {
            url: self.url@,
            forge_type: self.forge_type,
            limit: self.limit,
            rate_limit: self.rate_limit,
            phase: self.phase,
            page: self.page,
        }
    }
}

/// The request for the page that `c` stands at.
pub open spec fn fetch_of(c: CrawlView) -> Action {
    Action::Fetch { limit: c.limit, page: c.page, rate_limit: c.rate_limit }
}

/// The step that a crawl in state `pre` takes on `event`: the state `post`
/// that it reaches and the `action` that it asks for.
///
/// A crawl probes the forge, writes it where it is missing, and then
/// fetches page 1, 2, 3 and so on. A page without repositories ends the
/// crawl. The records of any other page are written as `planned` says,
/// and the next page is fetched. A failure, or an event that does not
/// answer the last action, ends the crawl for this cycle; a crawl that
/// has ended stays as it is.
pub open spec fn stepped(pre: CrawlView, event: Event, post: CrawlView, action: Action) -> bool {
    let aborted = post == (CrawlView { phase: Phase::Aborted, ..pre }) && action == Action::Aborted;
    match (pre.phase, event) {
        (Phase::Idle, Event::Start) => {
            &&& post == CrawlView { phase: Phase::Probing, ..pre }
            &&& action == Action::Probe
        },
        (Phase::Probing, Event::ForgeKnown(known)) => {
            let w = forge_write(known);
            if w.store || w.export {
                &&& post == CrawlView { phase: Phase::Settling, ..pre }
                &&& action == Action::WriteForge(w)
            } else {
                &&& post == CrawlView { phase: Phase::Fetching, ..pre }
                &&& action == fetch_of(post)
            }
        },
        (Phase::Settling, Event::Written) => {
            &&& post == CrawlView { phase: Phase::Fetching, ..pre }
            &&& action == fetch_of(post)
        },
        (Phase::Fetching, Event::Page { resp, users, repos }) => {
            if resp.repos@.len() == 0 {
                &&& post == CrawlView { phase: Phase::Done, ..pre }
                &&& action == Action::Finished { pages: (pre.page - 1) as u64 }
            } else if users@.len() != resp.users@.len() || repos@.len() != resp.repos@.len() {
                aborted
            } else {
                &&& post == CrawlView { phase: Phase::Writing, ..pre }
                &&& action matches Action::WritePage { resp: page, users: user_writes, repos: repo_writes }
                &&& page == resp
                &&& user_writes@ == planned(keys_of(resp.users@), users@)
                &&& repo_writes@ == planned(keys_of(resp.repos@), repos@)
            }
        },
        (Phase::Writing, Event::Written) => {
            if pre.page < u64::MAX {
                &&& post == CrawlView { phase: Phase::Fetching, page: (pre.page + 1) as u64, ..pre }
                &&& action == fetch_of(post)
            } else {
                aborted
            }
        },
        (Phase::Done, _) => {
            &&& post == pre
            &&& action == Action::Finished { pages: (pre.page - 1) as u64 }
        },
        _ => aborted,
    }
}

impl Crawl {
    #[verifier::type_invariant]
    spec fn counted(&self) -> bool {
        self.page >= 1
    }

    /// A crawl of the forge at `url` that has not begun.
    pub fn new(url: Url, forge_type: ForgeImplementation, limit: u64, rate_limit: u64) -> (c: Crawl)
        ensures
            c@ == (CrawlView {
                url: url@,
                forge_type,
                limit,
                rate_limit,
                phase: Phase::Idle,
                page: 1,
            }),
    {
        Crawl { url, forge_type, limit, rate_limit, phase: Phase::Idle, page: 1 }
    }

    /// Where the crawl stands.
    pub fn phase(&self) -> (p: Phase)
        ensures
            p == self@.phase,
    {
        self.phase
    }

    /// The forge that is crawled.
    pub fn url(&self) -> (u: &Url)
        ensures
            u@ == self@.url,
    {
        &self.url
    }

    /// Whether the crawl has ended, one way or the other.
    pub fn is_over(&self) -> (r: bool)
        ensures
            r == (self@.phase == Phase::Done || self@.phase == Phase::Aborted),
    {
        self.phase == Phase::Done || self.phase == Phase::Aborted
    }

    /// The page that is fetched next, or that was fetched last; pages are
    /// counted from 1.
    pub fn page(&self) -> (p: u64)
        ensures
            p == self@.page,
            p >= 1,
    {
        proof {
            use_type_invariant(self);
        }
        self.page
    }

    /// The message that creates the forge: as a forge crawled here, never
    /// as one learned from a peer.
    pub fn forge_message(&self) -> (m: CreateForge<'static>)
        ensures
            m.url@ == self@.url,
            m.forge_type == self@.forge_type,
            m.starchart_url is None,
    {
        CreateForge { url: self.url.clone(), forge_type: self.forge_type, starchart_url: None }
    }

    /// Takes one step: see `stepped`.
    pub fn advance(&mut self, event: Event) -> (action: Action)
        ensures
            stepped(old(self)@, event, final(self)@, action),
    {
        proof {
            use_type_invariant(&*self);
        }
        match (self.phase, event) {
            (Phase::Idle, Event::Start) => {
                self.phase = Phase::Probing;
                Action::Probe
            },
            (Phase::Probing, Event::ForgeKnown(known)) => {
                let w = plan_forge(known);
                if w.store || w.export {
                    self.phase = Phase::Settling;
                    Action::WriteForge(w)
                } else {
                    self.phase = Phase::Fetching;
                    Action::Fetch { limit: self.limit, page: self.page, rate_limit: self.rate_limit }
                }
            },
            (Phase::Settling, Event::Written) => {
                self.phase = Phase::Fetching;
                Action::Fetch { limit: self.limit, page: self.page, rate_limit: self.rate_limit }
            },
            (Phase::Fetching, Event::Page { resp, users, repos }) => {
                if resp.repos.len() == 0 {
                    self.phase = Phase::Done;
                    Action::Finished { pages: self.page - 1 }
                } else if users.len() != resp.users.len() || repos.len() != resp.repos.len() {
                    self.phase = Phase::Aborted;
                    Action::Aborted
                } else {
                    let user_writes = plan(&resp.users, &users);
                    let repo_writes = plan(&resp.repos, &repos);
                    assert(user_writes@ =~= planned(keys_of(resp.users@), users@));
                    assert(repo_writes@ =~= planned(keys_of(resp.repos@), repos@));
                    self.phase = Phase::Writing;
                    Action::WritePage { resp, users: user_writes, repos: repo_writes }
                }
            },
            (Phase::Writing, Event::Written) => {
                if self.page < u64::MAX {
                    self.page = self.page + 1;
                    self.phase = Phase::Fetching;
                    Action::Fetch { limit: self.limit, page: self.page, rate_limit: self.rate_limit }
                } else {
                    self.phase = Phase::Aborted;
                    Action::Aborted
                }
            },
            (Phase::Done, _) => Action::Finished { pages: self.page - 1 },
            _ => {
                self.phase = Phase::Aborted;
                Action::Aborted
            },
        }
    }
}

/// What the scheduler is busy with.
#[derive(Clone, Copy, Debug, PartialEq, Eq, Structural)]
pub enum Job {
    /// nothing yet
    Idle,
    /// a page of the list of forges is being read
    Listing,
    /// a forge is being crawled
    Crawling,
    /// the federation export store is being archived
    Snapshotting,
    /// the scheduler waits for the next cycle
    Sleeping,
    /// the scheduler was told to stop
    Stopped,
}

/// What the driver of the scheduler reports to it.
#[derive(Debug)]
pub enum Signal {
    /// the scheduler is to begin
    Start,
    /// the page of forges that was asked for
    Forges(Vec<Forge>),
    /// the crawl that was asked for has ended, well or badly
    Crawled,
    /// the archive was written and the old ones were pruned
    Snapshotted,
    /// the wait is over
    Slept,
}

/// What the scheduler asks its driver to do next.
#[derive(Debug)]
pub enum Order {
    /// read a page of the forges that were not learned from a peer
    ListForges { offset: u32, limit: u32 },
    /// crawl the forge at this URL
    Crawl { url: String },
    /// archive the federation export store and prune old archives
    Snapshot,
    /// wait
    Sleep { seconds: u64 },
    /// nothing more: the scheduler has stopped
    Stop,
}

/// What the scheduler holds.
pub struct CrawlerView {
    /// what the scheduler is busy with
    pub job: Job,
    /// the page of the list of forges that is read next or was read last
    pub page: u32,
    /// the forges per page
    pub per_page: u32,
    /// the seconds to wait between two cycles
    pub ttl: u64,
    /// the forges of the page that was read last
    pub queue: Seq<Forge>,
    /// the position in `queue` of the forge that is being crawled
    pub next: int,
}

/// The background scheduler of crawls: a state machine that goes through
/// the forges of the store page by page, has each crawled, archives the
/// export store when the list is exhausted, waits, and starts over.
pub struct Crawler {
    job: Job,
    page: u32,
    per_page: u32,
    ttl: u64,
    queue: Vec<Forge>,
    next: usize,
}

impl View for Crawler {
    type V = CrawlerView;

    closed spec fn view(&self) -> CrawlerView {
        CrawlerView {
            job: self.job,
            page: self.page,
            per_page: self.per_page,
            ttl: self.ttl,
            queue: self.queue@,
            next: self.next as int,
        }
    }
}

/// The first position from `from` on at which `queue` holds a forge that
/// was not learned from a peer; the length of `queue` where there is none.
pub open spec fn next_local(queue: Seq<Forge>, from: int) -> int
    decreases queue.len() - from,
{
    if from < 0 || from >= queue.len() {
        queue.len() as int
    } else if !queue[from].imported {
        from
    } else {
        next_local(queue, from + 1)
    }
}

/// The scheduler turns to page `page` of the list of forges, or, where the
/// page's offset cannot be counted, to the archive.
pub open spec fn turned_to(pre: CrawlerView, page: int, post: CrawlerView, order: Order) -> bool {
    if page <= u32::MAX && page * pre.per_page <= u32::MAX {
        &&& post == CrawlerView { job: Job::Listing, page: page as u32, ..pre }
        &&& order == Order::ListForges {
            offset: (page * pre.per_page) as u32,
            limit: pre.per_page,
        }
    } else {
        &&& post == CrawlerView { job: Job::Snapshotting, ..pre }
        &&& order == Order::Snapshot
    }
}

/// The scheduler turns to the first forge of `pre.queue` from `from` on
/// that was not learned from a peer, or, where there is none, to the next
/// page of the list.
pub open spec fn turned_to_forge(
    pre: CrawlerView,
    from: int,
    post: CrawlerView,
    order: Order,
) -> bool {
    let n = next_local(pre.queue, from);
    if n < pre.queue.len() {
        &&& post == CrawlerView { job: Job::Crawling, next: n, ..pre }
        &&& order matches Order::Crawl { url }
        &&& url@ == pre.queue[n].url@
    } else {
        turned_to(pre, pre.page + 1, post, order)
    }
}

/// The step that a scheduler in state `pre` takes on `signal`, given
/// whether it was told to shut down.
///
/// Told to shut down, it stops, whatever the signal, and stays stopped.
/// Else it reads the list of forges page by page, from page 0. It has
/// each forge of a page crawled that was not learned from a peer, one
/// after the other, and then reads the next page. An empty page ends the
/// cycle: the export store is archived, the scheduler waits `ttl` seconds
/// and starts over at page 0. A signal that does not answer the last
/// order stops it.
pub open spec fn scheduled(
    pre: CrawlerView,
    signal: Signal,
    shutdown: bool,
    post: CrawlerView,
    order: Order,
) -> bool {
    let stopped = post == (CrawlerView { job: Job::Stopped, ..pre }) && order == Order::Stop;
    if shutdown {
        stopped
    } else {
        match (pre.job, signal) {
            (Job::Idle, Signal::Start) => turned_to(pre, 0, post, order),
            (Job::Listing, Signal::Forges(forges)) => {
                if forges@.len() == 0 {
                    &&& post == CrawlerView { job: Job::Snapshotting, queue: forges@, next: 0, ..pre }
                    &&& order == Order::Snapshot
                } else {
                    turned_to_forge(CrawlerView { queue: forges@, next: 0, ..pre }, 0, post, order)
                }
            },
            (Job::Crawling, Signal::Crawled) => turned_to_forge(pre, pre.next + 1, post, order),
            (Job::Snapshotting, Signal::Snapshotted) => {
                &&& post == CrawlerView { job: Job::Sleeping, ..pre }
                &&& order == Order::Sleep { seconds: pre.ttl }
            },
            (Job::Sleeping, Signal::Slept) => turned_to(pre, 0, post, order),
            _ => stopped,
        }
    }
}

/// Once told to shut down, a scheduler starts no crawl; and it never has a
/// forge crawled that was learned from a peer.
pub proof fn lemma_crawls_local_forges_until_shutdown(
    pre: CrawlerView,
    signal: Signal,
    shutdown: bool,
    post: CrawlerView,
    order: Order,
)
    requires
        scheduled(pre, signal, shutdown, post, order),
        order is Crawl,
    ensures
        !shutdown,
        post.job == Job::Crawling,
        0 <= post.next < post.queue.len(),
        !post.queue[post.next].imported,
        order->url@ == post.queue[post.next].url@,
{
    match (pre.job, signal) {
        (Job::Listing, Signal::Forges(forges)) => {
            lemma_next_local(forges@, 0);
        },
        (Job::Crawling, Signal::Crawled) => {
            lemma_next_local(pre.queue, pre.next + 1);
        },
        _ => {},
    }
}

/// `next_local` answers a position from `from` on at which a forge stands
/// that was not learned from a peer, or the length of the queue.
pub proof fn lemma_next_local(queue: Seq<Forge>, from: int)
    requires
        0 <= from,
    ensures
        from <= next_local(queue, from) || next_local(queue, from) == queue.len(),
        next_local(queue, from) <= queue.len(),
        next_local(queue, from) < queue.len() ==> !queue[next_local(queue, from)].imported,
        forall|k: int| from <= k < next_local(queue, from) ==> queue[k].imported,
    decreases queue.len() - from,
{
    if from < queue.len() && queue[from].imported {
        lemma_next_local(queue, from + 1);
    }
}

impl Crawler {
    #[verifier::type_invariant]
    spec fn placed(&self) -> bool {
        self.job == Job::Crawling ==> self.next < self.queue@.len()
    }

    /// A scheduler that has not begun: `per_page` forges are read per
    /// page, and `ttl` seconds pass between two cycles.
    pub fn new(per_page: u32, ttl: u64) -> (c: Crawler)
        ensures
            c@ == (CrawlerView {
                job: Job::Idle,
                page: 0,
                per_page,
                ttl,
                queue: Seq::empty(),
                next: 0,
            }),
    {
        Crawler { job: Job::Idle, page: 0, per_page, ttl, queue: Vec::new(), next: 0 }
    }

    /// Whether the scheduler has not been stopped.
    pub fn is_running(&self) -> (r: bool)
        ensures
            r == (self@.job != Job::Stopped),
    {
        self.job != Job::Stopped
    }

    fn turn_to(&mut self, page: u32, overflow: bool) -> (order: Order)
        requires
            old(self).job != Job::Crawling,
        ensures
            turned_to(old(self)@, if overflow { u32::MAX + 1 } else { page as int }, final(self)@, order),
    {
        if overflow {
            self.job = Job::Snapshotting;
            return Order::Snapshot;
        }
        match page.checked_mul(self.per_page) {
            Some(offset) => {
                self.job = Job::Listing;
                self.page = page;
                Order::ListForges { offset, limit: self.per_page }
            },
            None => {
                self.job = Job::Snapshotting;
                Order::Snapshot
            },
        }
    }

    fn turn_to_forge(&mut self, from: usize) -> (order: Order)
        requires
            old(self).job != Job::Crawling,
            from <= old(self).queue@.len(),
        ensures
            turned_to_forge(old(self)@, from as int, final(self)@, order),
    {
        let mut n: usize = from;
        while n < self.queue.len() && self.queue[n].imported
            invariant
                *self == *old(self),
                from <= n <= self.queue@.len(),
                next_local(self.queue@, from as int) == next_local(self.queue@, n as int),
            decreases self.queue@.len() - n,
        {
            n = n + 1;
        }
        if n < self.queue.len() {
            let url = self.queue[n].url.clone();
            self.next = n;
            self.job = Job::Crawling;
            Order::Crawl { url }
        } else {
            if self.page < u32::MAX {
                self.turn_to(self.page + 1, false)
            } else {
                self.turn_to(0, true)
            }
        }
    }

    /// Takes one step: see `scheduled`. `shutdown` says whether the
    /// signal to stop has been received.
    pub fn advance(&mut self, signal: Signal, shutdown: bool) -> (order: Order)
        ensures
            scheduled(old(self)@, signal, shutdown, final(self)@, order),
    {
        proof {
            use_type_invariant(&*self);
        }
        if shutdown {
            self.job = Job::Stopped;
            return Order::Stop;
        }
        match (self.job, signal) {
            (Job::Idle, Signal::Start) => self.turn_to(0, false),
            (Job::Listing, Signal::Forges(forges)) => {
                if forges.len() == 0 {
                    self.queue = forges;
                    self.next = 0;
                    self.job = Job::Snapshotting;
                    Order::Snapshot
                } else {
                    self.queue = forges;
                    self.next = 0;
                    self.turn_to_forge(0)
                }
            },
            (Job::Crawling, Signal::Crawled) => {
                let len = self.queue.len();
                assert(self.next < len);
                let from = self.next + 1;
                self.job = Job::Listing;
                let order = self.turn_to_forge(from);
                order
            },
            (Job::Snapshotting, Signal::Snapshotted) => {
                self.job = Job::Sleeping;
                Order::Sleep { seconds: self.ttl }
            },
            (Job::Sleeping, Signal::Slept) => self.turn_to(0, false),
            _ => {
                self.job = Job::Stopped;
                Order::Stop
            },
        }
    }
}

} // verus!

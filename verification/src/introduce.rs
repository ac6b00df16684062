//! The introducer protocol: the sweep in which an instance lists the peers
//! that its peers know, introduces itself to them, and takes over their
//! forges and their mini-indexes.

use vstd::prelude::*;
use crate::db::{Forge, Starchart};
use crate::table::kept;
use crate::text::{owned, same};
use crate::weburl::{url_href, url_origin, Url};

verus! {

/// One thing that the driver of a sweep does: a request to a peer or an
/// operation on the store.
#[derive(Debug)]
pub enum Step {
    /// ask the peer `node` for a page of the peers that it knows
    ListIntroductions { node: String, origin: String, page: u32 },
    /// tell the peer `node` that this instance exists
    Introduce { node: String, instance_url: String },
    /// add `peer` to the known peers of the store
    Register { peer: String, origin: String },
    /// ask `peer` for a page of its forges, and the store which of them
    /// it has
    ListForges { peer: String, origin: String, page: u32 },
    /// create each forge in the store, as one learned from the peer at
    /// `starchart_url`
    ImportForges { starchart_url: String, forges: Vec<Forge> },
    /// ask `peer` for its mini-index
    GetMiniIndex { peer: String },
    /// put `mini_index` in the place of what the store holds as the
    /// mini-index of `peer`
    ReplaceMiniIndex { peer: String, mini_index: String },
    /// read a page of the known peers of the store
    ListPeers { offset: u32, limit: u32 },
    /// wait until the next sweep
    Sleep { seconds: u64 },
    /// nothing more: the introducer has stopped
    Stop,
}

/// What a step is, over plain texts.
pub enum StepView {
    ListIntroductions { node: Seq<char>, origin: Seq<char>, page: u32 },
    Introduce { node: Seq<char>, instance_url: Seq<char> },
    Register { peer: Seq<char>, origin: Seq<char> },
    ListForges { peer: Seq<char>, origin: Seq<char>, page: u32 },
    ImportForges { starchart_url: Seq<char>, forges: Seq<Forge> },
    GetMiniIndex { peer: Seq<char> },
    ReplaceMiniIndex { peer: Seq<char>, mini_index: Seq<char> },
    ListPeers { offset: u32, limit: u32 },
    Sleep { seconds: u64 },
    Stop,
}

impl View for Step {
    type V = StepView;

    open spec fn view(&self) -> StepView {
        match *self {
            Step::ListIntroductions { node, origin, page } => StepView::ListIntroductions {
                node: node@,
                origin: origin@,
                page,
            },
            Step::Introduce { node, instance_url } => StepView::Introduce {
                node: node@,
                instance_url: instance_url@,
            },
            Step::Register { peer, origin } => StepView::Register { peer: peer@, origin: origin@ },
            Step::ListForges { peer, origin, page } => StepView::ListForges {
                peer: peer@,
                origin: origin@,
                page,
            },
            Step::ImportForges { starchart_url, forges } => StepView::ImportForges {
                starchart_url: starchart_url@,
                forges: forges@,
            },
            Step::GetMiniIndex { peer } => StepView::GetMiniIndex { peer: peer@ },
            Step::ReplaceMiniIndex { peer, mini_index } => StepView::ReplaceMiniIndex {
                peer: peer@,
                mini_index: mini_index@,
            },
            Step::ListPeers { offset, limit } => StepView::ListPeers { offset, limit },
            Step::Sleep { seconds } => StepView::Sleep { seconds },
            Step::Stop => StepView::Stop,
        }
    }
}

/// Copies of forges.
pub fn copy_forges(v: &Vec<Forge>) -> (r: Vec<Forge>)
    ensures
        r@ == v@,
{
    let mut r: Vec<Forge> = Vec::new();
    let mut i: usize = 0;
    while i < v.len()
        invariant
            i <= v.len(),
            r@ == v@.take(i as int),
        decreases v.len() - i,
    {
        r.push(v[i].clone());
        assert(v@.take(i + 1) =~= v@.take(i as int).push(v@[i as int]));
        i = i + 1;
    }
    assert(v@.take(v.len() as int) =~= v@);
    r
}

impl Clone for Step {
    fn clone(&self) -> (r: Self)
        ensures
            r@ == self@,
    {
        match self {
            Step::ListIntroductions { node, origin, page } => Step::ListIntroductions {
                node: node.clone(),
                origin: origin.clone(),
                page: *page,
            },
            Step::Introduce { node, instance_url } => Step::Introduce {
                node: node.clone(),
                instance_url: instance_url.clone(),
            },
            Step::Register { peer, origin } => Step::Register {
                peer: peer.clone(),
                origin: origin.clone(),
            },
            Step::ListForges { peer, origin, page } => Step::ListForges {
                peer: peer.clone(),
                origin: origin.clone(),
                page: *page,
            },
            Step::ImportForges { starchart_url, forges } => Step::ImportForges {
                starchart_url: starchart_url.clone(),
                forges: copy_forges(forges),
            },
            Step::GetMiniIndex { peer } => Step::GetMiniIndex { peer: peer.clone() },
            Step::ReplaceMiniIndex { peer, mini_index } => Step::ReplaceMiniIndex {
                peer: peer.clone(),
                mini_index: mini_index.clone(),
            },
            Step::ListPeers { offset, limit } => Step::ListPeers { offset: *offset, limit: *limit },
            Step::Sleep { seconds } => Step::Sleep { seconds: *seconds },
            Step::Stop => Step::Stop,
        }
    }
}

/// What the driver reports of the step that it has done.
#[derive(Debug)]
pub enum Reply {
    /// the step is done
    Done,
    /// the step failed
    Failed,
    /// the page of peers that a peer knows
    Introductions(Vec<Starchart>),
    /// the page of forges of a peer, and for each whether the store has a
    /// forge at its URL
    Forges { forges: Vec<Forge>, known: Vec<bool> },
    /// the mini-index of a peer
    MiniIndex(String),
    /// the page of the known peers of the store
    Peers(Vec<Starchart>),
}

/// The steps, one by one, over plain texts.
pub open spec fn views(steps: Seq<Step>) -> Seq<StepView> {
    Seq::new(steps.len(), |i: int| steps[i]@)
}

/// The URLs of the peers, as they are listed.
pub open spec fn names(peers: Seq<Starchart>) -> Seq<Seq<char>> {
    Seq::new(peers.len(), |i: int| peers[i].instance_url@)
}

/// The visit to the peer at `text`: the first page of the peers that it
/// knows is asked for. No visit is paid to a text that is no URL, nor to
/// this instance, `me`.
pub open spec fn visit_of(text: Seq<char>, me: Seq<char>) -> Seq<StepView> {
    match url_href(text) {
        Some(href) => if href != me && text != me {
            seq![StepView::ListIntroductions { node: href, origin: url_origin(text), page: 1 }]
        } else {
            Seq::empty()
        },
        None => Seq::empty(),
    }
}

/// The visits to the peers at `texts`, in order.
pub open spec fn visits(texts: Seq<Seq<char>>, me: Seq<char>) -> Seq<StepView>
    decreases texts.len(),
{
    if texts.len() == 0 {
        Seq::empty()
    } else {
        visits(texts.drop_last(), me) + visit_of(texts.last(), me)
    }
}

/// The registration of the peer at `text`. Neither a text that is no URL
/// is registered, nor this instance, `me`.
pub open spec fn register_of(text: Seq<char>, me: Seq<char>) -> Seq<StepView> {
    match url_href(text) {
        Some(href) => if href != me && text != me {
            seq![StepView::Register { peer: href, origin: url_origin(text) }]
        } else {
            Seq::empty()
        },
        None => Seq::empty(),
    }
}

/// The registrations of the peers at `texts`, in order.
pub open spec fn registers(texts: Seq<Seq<char>>, me: Seq<char>) -> Seq<StepView>
    decreases texts.len(),
{
    if texts.len() == 0 {
        Seq::empty()
    } else {
        registers(texts.drop_last(), me) + register_of(texts.last(), me)
    }
}

/// No visit is paid to this instance.
pub proof fn lemma_visits_never_self(texts: Seq<Seq<char>>, me: Seq<char>, i: int)
    requires
        0 <= i < visits(texts, me).len(),
    ensures
        visits(texts, me)[i] matches StepView::ListIntroductions { node, origin, page } && node != me,
    decreases texts.len(),
{
    if texts.len() > 0 {
        let head = visits(texts.drop_last(), me);
        if i < head.len() {
            lemma_visits_never_self(texts.drop_last(), me, i);
        }
    }
}

/// This instance is never registered as a peer.
pub proof fn lemma_registers_never_self(texts: Seq<Seq<char>>, me: Seq<char>, i: int)
    requires
        0 <= i < registers(texts, me).len(),
    ensures
        registers(texts, me)[i] matches StepView::Register { peer, origin } && peer != me,
    decreases texts.len(),
{
    if texts.len() > 0 {
        let head = registers(texts.drop_last(), me);
        if i < head.len() {
            lemma_registers_never_self(texts.drop_last(), me, i);
        }
    }
}

/// Which forges of a peer's page are created: those whose URL is one and
/// at whose URL the store has no forge.
pub open spec fn wanted(forges: Seq<Forge>, known: Seq<bool>) -> Seq<bool> {
    Seq::new(forges.len(), |i: int| !known[i] && url_href(forges[i].url@) is Some)
}

/// The href and the origin of the URL that `text` is, if it is one.
pub fn parse_peer(text: &str) -> (r: Option<(String, String)>)
    ensures
        r is Some <==> url_href(text@) is Some,
        r matches Some(p) ==> p.0@ == url_href(text@)->0 && p.1@ == url_origin(text@),
{
    match Url::parse(text) {
        Ok(u) => Some((owned(u.as_str()), owned(u.origin()))),
        Err(_) => None,
    }
}

/// The visits to the peers at `texts`.
pub fn plan_visits(texts: &Vec<String>, me: &str) -> (r: Vec<Step>)
    ensures
        views(r@) == visits(crate::text::texts(texts@), me@),
{
    let ghost all = crate::text::texts(texts@);
    let mut r: Vec<Step> = Vec::new();
    let mut i: usize = 0;
    assert(all.take(0) =~= Seq::<Seq<char>>::empty());
    assert(views(r@) =~= Seq::<StepView>::empty());
    while i < texts.len()
        invariant
            all == crate::text::texts(texts@),
            i <= texts.len(),
            views(r@) == visits(all.take(i as int), me@),
        decreases texts.len() - i,
    {
        let ghost before = views(r@);
        assert(all.take(i + 1).drop_last() =~= all.take(i as int));
        assert(all.take(i + 1).last() == texts@[i as int]@);
        let text = texts[i].as_str();
        match parse_peer(text) {
            Some((href, origin)) => {
                if !same(href.as_str(), me) && !same(text, me) {
                    r.push(Step::ListIntroductions { node: href, origin, page: 1 });
                    assert(views(r@) =~= before + visit_of(text@, me@));
                } else {
                    assert(views(r@) =~= before + visit_of(text@, me@));
                }
            },
            None => {
                assert(views(r@) =~= before + visit_of(text@, me@));
            },
        }
        i = i + 1;
    }
    assert(all.take(texts.len() as int) =~= all);
    r
}

/// The URLs of the peers, as they are listed.
pub fn names_of(peers: &Vec<Starchart>) -> (r: Vec<String>)
    ensures
        crate::text::texts(r@) == names(peers@),
{
    let mut r: Vec<String> = Vec::new();
    let mut i: usize = 0;
    while i < peers.len()
        invariant
            i <= peers.len(),
            r@.len() == i,
            forall|k: int| 0 <= k < i ==> (#[trigger] r@[k])@ == peers@[k].instance_url@,
        decreases peers.len() - i,
    {
        r.push(peers[i].instance_url.clone());
        i = i + 1;
    }
    assert(crate::text::texts(r@) =~= names(peers@));
    r
}

/// The registrations of the peers at `texts`.
pub fn plan_registers(texts: &Vec<String>, me: &str) -> (r: Vec<Step>)
    ensures
        views(r@) == registers(crate::text::texts(texts@), me@),
{
    let ghost all = crate::text::texts(texts@);
    let mut r: Vec<Step> = Vec::new();
    let mut i: usize = 0;
    assert(all.take(0) =~= Seq::<Seq<char>>::empty());
    assert(views(r@) =~= Seq::<StepView>::empty());
    while i < texts.len()
        invariant
            all == crate::text::texts(texts@),
            i <= texts.len(),
            views(r@) == registers(all.take(i as int), me@),
        decreases texts.len() - i,
    {
        let ghost before = views(r@);
        assert(all.take(i + 1).drop_last() =~= all.take(i as int));
        assert(all.take(i + 1).last() == texts@[i as int]@);
        let text = texts[i].as_str();
        match parse_peer(text) {
            Some((href, origin)) => {
                if !same(href.as_str(), me) && !same(text, me) {
                    r.push(Step::Register { peer: href, origin });
                    assert(views(r@) =~= before + register_of(text@, me@));
                } else {
                    assert(views(r@) =~= before + register_of(text@, me@));
                }
            },
            None => {
                assert(views(r@) =~= before + register_of(text@, me@));
            },
        }
        i = i + 1;
    }
    assert(all.take(texts.len() as int) =~= all);
    r
}

/// The forges of a peer's page that are created: see `wanted`.
pub fn select_forges(forges: &Vec<Forge>, known: &Vec<bool>) -> (r: Vec<Forge>)
    requires
        known.len() == forges.len(),
    ensures
        r@ == kept(forges@, wanted(forges@, known@)),
{
    let ghost flags = wanted(forges@, known@);
    let mut r: Vec<Forge> = Vec::new();
    let mut i: usize = forges.len();
    let mut back: Vec<Forge> = Vec::new();
    assert(forges@.skip(i as int).len() == 0);
    while i > 0
        invariant
            known.len() == forges.len(),
            flags == wanted(forges@, known@),
            i <= forges.len(),
            back@.reverse() == kept(forges@.skip(i as int), flags.skip(i as int)),
        decreases i,
    {
        let ghost tail = kept(forges@.skip(i as int), flags.skip(i as int));
        i = i - 1;
        proof {
            assert(forges@.skip(i as int).drop_first() =~= forges@.skip(i + 1));
            assert(flags.skip(i as int).drop_first() =~= flags.skip(i + 1));
            assert(forges@.skip(i as int)[0] == forges@[i as int]);
            assert(flags.skip(i as int)[0] == flags[i as int]);
        }
        let parses = parse_peer(forges[i].url.as_str()).is_some();
        if !known[i] && parses {
            let ghost before = back@;
            back.push(forges[i].clone());
            assert(back@.reverse() =~= seq![forges@[i as int]] + before.reverse());
        }
    }
    assert(forges@.skip(0) =~= forges@);
    assert(flags.skip(0) =~= flags);
    let mut j: usize = back.len();
    while j > 0
        invariant
            j <= back.len(),
            r@ == back@.reverse().take(back.len() - j),
        decreases j,
    {
        j = j - 1;
        r.push(back[j].clone());
        assert(back@.reverse().take(back.len() - j) =~= back@.reverse().take(
            back.len() - j - 1,
        ).push(back@[j as int]));
    }
    assert(back@.reverse().take(back.len() as int) =~= back@.reverse());
    r
}

/// Whether `text` is one of `list`.
pub fn listed(list: &Vec<String>, text: &str) -> (r: bool)
    ensures
        r == crate::text::texts(list@).contains(text@),
{
    let mut i: usize = 0;
    while i < list.len()
        invariant
            i <= list.len(),
            forall|k: int| 0 <= k < i ==> crate::text::texts(list@)[k] != text@,
        decreases list.len() - i,
    {
        if same(list[i].as_str(), text) {
            assert(crate::text::texts(list@)[i as int] == text@);
            return true;
        }
        i = i + 1;
    }
    false
}

/// Puts the steps of `more` behind those of `steps`.
pub fn extend(steps: &mut Vec<Step>, more: Vec<Step>)
    ensures
        views(final(steps)@) == views(old(steps)@) + views(more@),
{
    let ghost added = more@;
    let mut more = more;
    steps.append(&mut more);
    assert(views(steps@) =~= views(old(steps)@) + views(added));
}

/// What the introducer holds.
pub struct BootstrapView {
    /// the URL of this instance
    pub me: Seq<char>,
    /// the peers that this instance is configured with
    pub nodes: Seq<Seq<char>>,
    /// the number of known peers that are read per page
    pub limit: u32,
    /// the seconds from the end of one sweep to the start of the next
    pub wait: u64,
    /// the steps that are to be done, the one that is being done first
    pub agenda: Seq<StepView>,
    /// the peers whose forges were asked for in this sweep
    pub visited: Seq<Seq<char>>,
    /// whether the introducer was told to stop
    pub stopped: bool,
}

/// The introducer: a state machine that hands its driver one step after
/// the other and is told how each went.
pub struct Bootstrap {
    me: String,
    nodes: Vec<String>,
    limit: u32,
    wait: u64,
    agenda: Vec<Step>,
    visited: Vec<String>,
    stopped: bool,
}

impl View for Bootstrap {
    type V = BootstrapView;

    closed spec fn view(&self) -> BootstrapView {
        BootstrapView {
            me: self.me@,
            nodes: crate::text::texts(self.nodes@),
            limit: self.limit,
            wait: self.wait,
            agenda: views(self.agenda@),
            visited: crate::text::texts(self.visited@),
            stopped: self.stopped,
        }
    }
}

/// The steps with which a sweep begins: a visit to each configured peer,
/// then the first page of the known peers.
pub open spec fn sweep(nodes: Seq<Seq<char>>, me: Seq<char>, limit: u32) -> Seq<StepView> {
    visits(nodes, me) + seq![StepView::ListPeers { offset: 0, limit }]
}

/// The steps that follow from the step `step` once the driver has
/// reported `reply`, and the peers whose forges were then asked for.
///
/// A page of peers that a peer knows is followed by this instance
/// introducing itself to that peer and, unless the page is empty, by the
/// registration of the peer and of each peer on the page, and by the next
/// page. A registration is followed by the peer's forges, from the first
/// page on, unless they were asked for in this sweep, and by its
/// mini-index. A page of forges is followed by their import, as far as
/// they are wanted, and by the next page, unless the page is empty. A
/// mini-index is put in the place of the peer's old one. A page of known
/// peers is followed by a visit to each of them, the first page also by a
/// visit to each configured peer, and a full page by the next page. The
/// wait is followed by the next sweep. Nothing follows from a step that
/// failed or whose reply is not of its kind.
pub open spec fn follow_ups(b: BootstrapView, step: StepView, reply: Reply) -> (
    Seq<StepView>,
    Seq<Seq<char>>,
) {
    match (step, reply) {
        (StepView::ListIntroductions { node, origin, page }, Reply::Introductions(list)) => {
            let greet = seq![StepView::Introduce { node, instance_url: b.me }];
            if list@.len() == 0 {
                (greet, b.visited)
            } else {
                let next = if page < u32::MAX {
                    seq![StepView::ListIntroductions { node, origin, page: (page + 1) as u32 }]
                } else {
                    Seq::empty()
                };
                (
                    greet + seq![StepView::Register { peer: node, origin }] + registers(
                        names(list@),
                        b.me,
                    ) + next,
                    b.visited,
                )
            }
        },
        (StepView::Register { peer, origin }, Reply::Done) => {
            if b.visited.contains(peer) {
                (seq![StepView::GetMiniIndex { peer }], b.visited)
            } else {
                (
                    seq![
                        StepView::ListForges { peer, origin, page: 1 },
                        StepView::GetMiniIndex { peer },
                    ],
                    b.visited.push(peer),
                )
            }
        },
        (StepView::ListForges { peer, origin, page }, Reply::Forges { forges, known }) => {
            if forges@.len() == 0 || known@.len() != forges@.len() {
                (Seq::empty(), b.visited)
            } else {
                let next = if page < u32::MAX {
                    seq![StepView::ListForges { peer, origin, page: (page + 1) as u32 }]
                } else {
                    Seq::empty()
                };
                (
                    seq![
                        StepView::ImportForges {
                            starchart_url: origin,
                            forges: kept(forges@, wanted(forges@, known@)),
                        },
                    ] + next,
                    b.visited,
                )
            }
        },
        (StepView::GetMiniIndex { peer }, Reply::MiniIndex(text)) => (
            seq![StepView::ReplaceMiniIndex { peer, mini_index: text@ }],
            b.visited,
        ),
        (StepView::ListPeers { offset, limit }, Reply::Peers(list)) => {
            let first = if offset == 0 {
                visits(b.nodes, b.me)
            } else {
                Seq::empty()
            };
            let next = if limit > 0 && list@.len() >= limit && offset + limit <= u32::MAX {
                seq![StepView::ListPeers { offset: (offset + limit) as u32, limit }]
            } else {
                Seq::empty()
            };
            (first + visits(names(list@), b.me) + next, b.visited)
        },
        (StepView::Sleep { seconds }, _) => (sweep(b.nodes, b.me, b.limit), Seq::empty()),
        _ => (Seq::empty(), b.visited),
    }
}

/// The step that an introducer in state `pre` takes once the driver has
/// reported `reply` of the step that it was doing: the steps that follow
/// from that step are put before the rest of the agenda, and when nothing
/// is left, the introducer waits. Told to shut down, it stops, and stays
/// stopped.
pub open spec fn taken(pre: BootstrapView, reply: Reply, shutdown: bool, post: BootstrapView) -> bool {
    if shutdown || pre.stopped || pre.agenda.len() == 0 {
        post == (BootstrapView { agenda: seq![StepView::Stop], stopped: true, ..pre })
    } else {
        let (more, visited) = follow_ups(pre, pre.agenda[0], reply);
        let rest = more + pre.agenda.skip(1);
        post == (BootstrapView {
            agenda: if rest.len() == 0 {
                seq![StepView::Sleep { seconds: pre.wait }]
            } else {
                rest
            },
            visited,
            ..pre
        })
    }
}

/// Whether the step leaves this instance, `me`, alone: it asks nothing of
/// it and registers nothing for it.
pub open spec fn foreign(step: StepView, me: Seq<char>) -> bool {
    match step {
        StepView::ListIntroductions { node, origin, page } => node != me,
        StepView::Introduce { node, instance_url } => node != me,
        StepView::Register { peer, origin } => peer != me,
        StepView::ListForges { peer, origin, page } => peer != me,
        StepView::GetMiniIndex { peer } => peer != me,
        StepView::ReplaceMiniIndex { peer, mini_index } => peer != me,
        _ => true,
    }
}

/// Whether every step of the agenda leaves this instance alone.
pub open spec fn all_foreign(agenda: Seq<StepView>, me: Seq<char>) -> bool {
    forall|i: int| 0 <= i < agenda.len() ==> foreign(#[trigger] agenda[i], me)
}

/// A sweep begins with steps that leave this instance alone.
pub proof fn lemma_sweep_is_foreign(nodes: Seq<Seq<char>>, me: Seq<char>, limit: u32)
    ensures
        all_foreign(sweep(nodes, me, limit), me),
{
    assert forall|i: int| 0 <= i < sweep(nodes, me, limit).len() implies foreign(
        #[trigger] sweep(nodes, me, limit)[i],
        me,
    ) by {
        if i < visits(nodes, me).len() {
            lemma_visits_never_self(nodes, me, i);
        }
    }
}

/// The introducer never turns to itself: where every step of the agenda
/// leaves this instance alone, so does every step of the agenda after
/// one more step is taken, whatever the driver reports.
pub proof fn lemma_never_self(pre: BootstrapView, reply: Reply, shutdown: bool, post: BootstrapView)
    requires
        taken(pre, reply, shutdown, post),
        all_foreign(pre.agenda, pre.me),
    ensures
        post.me == pre.me,
        all_foreign(post.agenda, post.me),
{
    let me = pre.me;
    if !(shutdown || pre.stopped || pre.agenda.len() == 0) {
        let step = pre.agenda[0];
        let more = follow_ups(pre, step, reply).0;
        let rest = pre.agenda.skip(1);
        assert(foreign(step, me));
        assert forall|i: int| 0 <= i < more.len() implies foreign(#[trigger] more[i], me) by {
            match (step, reply) {
                (StepView::ListIntroductions { node, origin, page }, Reply::Introductions(list)) => {
                    if list@.len() > 0 {
                        let listed = registers(names(list@), me);
                        if 2 <= i < 2 + listed.len() {
                            lemma_registers_never_self(names(list@), me, i - 2);
                            assert(more[i] == listed[i - 2]);
                        }
                    }
                },
                (StepView::ListPeers { offset, limit }, Reply::Peers(list)) => {
                    let first = if offset == 0 {
                        visits(pre.nodes, me)
                    } else {
                        Seq::empty()
                    };
                    let paid = visits(names(list@), me);
                    if i < first.len() {
                        lemma_visits_never_self(pre.nodes, me, i);
                    } else if i < first.len() + paid.len() {
                        lemma_visits_never_self(names(list@), me, i - first.len());
                        assert(more[i] == paid[i - first.len()]);
                    }
                },
                (StepView::Sleep { seconds }, _) => {
                    lemma_sweep_is_foreign(pre.nodes, me, pre.limit);
                },
                _ => {},
            }
        }
        assert forall|i: int| 0 <= i < post.agenda.len() implies foreign(
            #[trigger] post.agenda[i],
            me,
        ) by {
            if (more + rest).len() > 0 {
                if i >= more.len() {
                    assert(post.agenda[i] == pre.agenda[i - more.len() + 1]);
                }
            }
        }
    }
}

impl Bootstrap {
    /// An introducer at the start of its first sweep. `public_url` is the
    /// URL of this instance, `nodes` are the peers that it is configured
    /// with, `limit` known peers are read per page, and `wait` seconds
    /// pass from the end of one sweep to the start of the next.
    pub fn new(public_url: &Url, nodes: &Vec<Url>, limit: u32, wait: u64) -> (b: Bootstrap)
        ensures
            b@.me == public_url@.href,
            b@.nodes == Seq::new(nodes@.len(), |i: int| nodes@[i].source()),
            b@.limit == limit,
            b@.wait == wait,
            b@.agenda == sweep(b@.nodes, b@.me, limit),
            b@.visited == Seq::<Seq<char>>::empty(),
            !b@.stopped,
    {
        let mut texts: Vec<String> = Vec::new();
        let mut i: usize = 0;
        while i < nodes.len()
            invariant
                i <= nodes.len(),
                texts@.len() == i,
                forall|k: int| 0 <= k < i ==> (#[trigger] texts@[k])@ == nodes@[k].source(),
            decreases nodes.len() - i,
        {
            texts.push(owned(nodes[i].source_str()));
            i = i + 1;
        }
        assert(crate::text::texts(texts@) =~= Seq::new(nodes@.len(), |i: int| nodes@[i].source()));
        let me = owned(public_url.as_str());
        let mut agenda = plan_visits(&texts, me.as_str());
        let ghost before = views(agenda@);
        agenda.push(Step::ListPeers { offset: 0, limit });
        assert(views(agenda@) =~= before + seq![StepView::ListPeers { offset: 0, limit }]);
        let b = Bootstrap {
            me,
            nodes: texts,
            limit,
            wait,
            agenda,
            visited: Vec::new(),
            stopped: false,
        };
        assert(b@.visited =~= Seq::<Seq<char>>::empty());
        b
    }

    /// The step that is to be done now.
    pub fn current(&self) -> (step: Step)
        ensures
            step@ == (if self@.agenda.len() > 0 {
                self@.agenda[0]
            } else {
                StepView::Stop
            }),
    {
        if self.agenda.len() > 0 {
            self.agenda[0].clone()
        } else {
            Step::Stop
        }
    }

    /// Whether the introducer has not been stopped.
    pub fn is_running(&self) -> (r: bool)
        ensures
            r == !self@.stopped,
    {
        !self.stopped
    }

    /// The steps that follow from `step` on `reply`: see `follow_ups`.
    fn follow(&mut self, step: Step, reply: Reply) -> (more: Vec<Step>)
        ensures
            views(more@) == follow_ups(old(self)@, step@, reply).0,
            final(self)@ == (BootstrapView {
                visited: follow_ups(old(self)@, step@, reply).1,
                ..old(self)@
            }),
    {
        let mut more: Vec<Step> = Vec::new();
        assert(views(more@) =~= Seq::<StepView>::empty());
        match (step, reply) {
            (Step::ListIntroductions { node, origin, page }, Reply::Introductions(list)) => {
                more.push(Step::Introduce { node: node.clone(), instance_url: self.me.clone() });
                if list.len() > 0 {
                    more.push(Step::Register { peer: node.clone(), origin: origin.clone() });
                    let ghost head = views(more@);
                    assert(head =~= seq![
                        StepView::Introduce { node: node@, instance_url: self.me@ },
                    ] + seq![StepView::Register { peer: node@, origin: origin@ }]);
                    let listed = names_of(&list);
                    extend(&mut more, plan_registers(&listed, self.me.as_str()));
                    if page < u32::MAX {
                        let ghost before = views(more@);
                        more.push(Step::ListIntroductions { node, origin, page: page + 1 });
                        assert(views(more@) =~= before + seq![
                            StepView::ListIntroductions {
                                node: node@,
                                origin: origin@,
                                page: (page + 1) as u32,
                            },
                        ]);
                    } else {
                        assert(views(more@) =~= views(more@) + Seq::<StepView>::empty());
                    }
                } else {
                    assert(views(more@) =~= seq![
                        StepView::Introduce { node: node@, instance_url: self.me@ },
                    ]);
                }
            },
            (Step::Register { peer, origin }, Reply::Done) => {
                if listed(&self.visited, peer.as_str()) {
                    more.push(Step::GetMiniIndex { peer });
                    assert(views(more@) =~= seq![StepView::GetMiniIndex { peer: peer@ }]);
                } else {
                    let ghost before = crate::text::texts(self.visited@);
                    self.visited.push(peer.clone());
                    assert(crate::text::texts(self.visited@) =~= before.push(peer@));
                    more.push(Step::ListForges { peer: peer.clone(), origin, page: 1 });
                    more.push(Step::GetMiniIndex { peer });
                    assert(views(more@) =~= seq![
                        StepView::ListForges { peer: peer@, origin: origin@, page: 1 },
                        StepView::GetMiniIndex { peer: peer@ },
                    ]);
                }
            },
            (Step::ListForges { peer, origin, page }, Reply::Forges { forges, known }) => {
                if forges.len() > 0 && known.len() == forges.len() {
                    let chosen = select_forges(&forges, &known);
                    more.push(Step::ImportForges { starchart_url: origin.clone(), forges: chosen });
                    let ghost head = views(more@);
                    assert(head =~= seq![
                        StepView::ImportForges {
                            starchart_url: origin@,
                            forges: kept(forges@, wanted(forges@, known@)),
                        },
                    ]);
                    if page < u32::MAX {
                        more.push(Step::ListForges { peer, origin, page: page + 1 });
                        assert(views(more@) =~= head + seq![
                            StepView::ListForges {
                                peer: peer@,
                                origin: origin@,
                                page: (page + 1) as u32,
                            },
                        ]);
                    } else {
                        assert(views(more@) =~= head + Seq::<StepView>::empty());
                    }
                }
            },
            (Step::GetMiniIndex { peer }, Reply::MiniIndex(text)) => {
                more.push(Step::ReplaceMiniIndex { peer, mini_index: text });
                assert(views(more@) =~= seq![
                    StepView::ReplaceMiniIndex { peer: peer@, mini_index: text@ },
                ]);
            },
            (Step::ListPeers { offset, limit }, Reply::Peers(list)) => {
                if offset == 0 {
                    extend(&mut more, plan_visits(&self.nodes, self.me.as_str()));
                }
                let ghost first = views(more@);
                assert(first =~= if offset == 0 {
                    visits(self@.nodes, self@.me)
                } else {
                    Seq::empty()
                });
                let listed = names_of(&list);
                extend(&mut more, plan_visits(&listed, self.me.as_str()));
                let ghost before = views(more@);
                let full = limit > 0 && list.len() >= limit as usize;
                match offset.checked_add(limit) {
                    Some(next) => {
                        if full {
                            more.push(Step::ListPeers { offset: next, limit });
                            assert(views(more@) =~= before + seq![
                                StepView::ListPeers { offset: next, limit },
                            ]);
                        } else {
                            assert(views(more@) =~= before + Seq::<StepView>::empty());
                        }
                    },
                    None => {
                        assert(views(more@) =~= before + Seq::<StepView>::empty());
                    },
                }
            },
            (Step::Sleep { seconds }, _) => {
                extend(&mut more, plan_visits(&self.nodes, self.me.as_str()));
                let ghost before = views(more@);
                more.push(Step::ListPeers { offset: 0, limit: self.limit });
                assert(views(more@) =~= before + seq![
                    StepView::ListPeers { offset: 0, limit: self.limit },
                ]);
                self.visited = Vec::new();
                assert(crate::text::texts(self.visited@) =~= Seq::<Seq<char>>::empty());
            },
            _ => {},
        }
        more
    }

    /// Takes one step: see `taken`. `reply` says how the step went that
    /// the introducer handed out last, and `shutdown` whether the signal
    /// to stop has been received. The step that is handed out is the
    /// first of the agenda.
    pub fn advance(&mut self, reply: Reply, shutdown: bool) -> (step: Step)
        ensures
            taken(old(self)@, reply, shutdown, final(self)@),
            step@ == final(self)@.agenda[0],
    {
        if shutdown || self.stopped || self.agenda.len() == 0 {
            let mut agenda: Vec<Step> = Vec::new();
            agenda.push(Step::Stop);
            self.agenda = agenda;
            self.stopped = true;
            assert(views(self.agenda@) =~= seq![StepView::Stop]);
            return Step::Stop;
        }
        let ghost rest = views(self.agenda@).skip(1);
        let done = self.agenda.remove(0);
        assert(views(self.agenda@) =~= rest);
        let ghost mid = self@;
        let mut more = self.follow(done, reply);
        let mut tail: Vec<Step> = Vec::new();
        std::mem::swap(&mut tail, &mut self.agenda);
        extend(&mut more, tail);
        if more.len() == 0 {
            more.push(Step::Sleep { seconds: self.wait });
            assert(views(more@) =~= seq![StepView::Sleep { seconds: self.wait }]);
        }
        let step = more[0].clone();
        self.agenda = more;
        step
    }
}

} // verus!

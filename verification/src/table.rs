//! A keyed list: rows in the order in which they were added, each under a
//! key made of one or more texts, no key twice.

use vstd::prelude::*;
use crate::text::texts;

verus! {

/// What a key holds: its parts as character sequences.
pub type KeyView = Seq<Seq<char>>;

/// Whether two keys have the same parts.
pub fn same_key(a: &Vec<String>, b: &Vec<String>) -> (r: bool)
    ensures
        r == (texts(a@) == texts(b@)),
{
    if a.len() != b.len() {
        assert(texts(a@).len() != texts(b@).len());
        return false;
    }
    let mut i: usize = 0;
    while i < a.len()
        invariant
            a.len() == b.len(),
            i <= a.len(),
            forall|k: int| 0 <= k < i ==> a@[k]@ == b@[k]@,
        decreases a.len() - i,
    {
        if a[i] != b[i] {
            assert(texts(a@)[i as int] != texts(b@)[i as int]);
            return false;
        }
        i = i + 1;
    }
    assert(texts(a@) =~= texts(b@));
    true
}

/// A copy of a key.
pub fn copy_key(key: &Vec<String>) -> (r: Vec<String>)
    ensures
        texts(r@) == texts(key@),
{
    let mut r: Vec<String> = Vec::new();
    let mut i: usize = 0;
    while i < key.len()
        invariant
            i <= key.len(),
            r.len() == i,
            forall|k: int| 0 <= k < i ==> r@[k]@ == key@[k]@,
        decreases key.len() - i,
    {
        r.push(key[i].clone());
        i = i + 1;
    }
    assert(texts(r@) =~= texts(key@));
    r
}

/// A key of one part.
pub fn key1(a: &str) -> (r: Vec<String>)
    ensures
        texts(r@) == seq![a@],
{
    let mut r: Vec<String> = Vec::new();
    r.push(a.to_owned());
    assert(texts(r@) =~= seq![a@]);
    r
}

/// A key of two parts.
pub fn key2(a: &str, b: &str) -> (r: Vec<String>)
    ensures
        texts(r@) == seq![a@, b@],
{
    let mut r: Vec<String> = Vec::new();
    r.push(a.to_owned());
    r.push(b.to_owned());
    assert(texts(r@) =~= seq![a@, b@]);
    r
}

/// A key of three parts.
pub fn key3(a: &str, b: &str, c: &str) -> (r: Vec<String>)
    ensures
        texts(r@) == seq![a@, b@, c@],
{
    let mut r: Vec<String> = Vec::new();
    r.push(a.to_owned());
    r.push(b.to_owned());
    r.push(c.to_owned());
    assert(texts(r@) =~= seq![a@, b@, c@]);
    r
}

/// The members of `s` at the positions where `keep` holds `true`, in
/// order.
pub open spec fn kept<T>(s: Seq<T>, keep: Seq<bool>) -> Seq<T>
    decreases s.len(),
{
    if s.len() == 0 || keep.len() == 0 {
        Seq::empty()
    } else if keep[0] {
        seq![s[0]] + kept(s.drop_first(), keep.drop_first())
    } else {
        kept(s.drop_first(), keep.drop_first())
    }
}

/// What is kept of a sequence is what stood at a position that is kept.
pub proof fn lemma_kept<T>(s: Seq<T>, keep: Seq<bool>, x: T)
    requires
        s.len() == keep.len(),
    ensures
        kept(s, keep).contains(x) <==> exists|i: int| 0 <= i < s.len() && keep[i] && #[trigger] s[i] == x,
    decreases s.len(),
{
    if s.len() > 0 {
        let rest = kept(s.drop_first(), keep.drop_first());
        lemma_kept(s.drop_first(), keep.drop_first(), x);
        if kept(s, keep).contains(x) {
            let j = kept(s, keep).index_of(x);
            if keep[0] && j == 0 {
                assert(s[0] == x);
            } else {
                if keep[0] {
                    assert(rest[j - 1] == x);
                } else {
                    assert(rest[j] == x);
                }
                assert(rest.contains(x));
                let i = choose|i: int|
                    0 <= i < s.drop_first().len() && keep.drop_first()[i] && #[trigger] s.drop_first()[i]
                        == x;
                assert(s[i + 1] == x && keep[i + 1]);
            }
        }
        if exists|i: int| 0 <= i < s.len() && keep[i] && #[trigger] s[i] == x {
            let i = choose|i: int| 0 <= i < s.len() && keep[i] && #[trigger] s[i] == x;
            if i == 0 {
                assert(kept(s, keep)[0] == x);
            } else {
                assert(s.drop_first()[i - 1] == x && keep.drop_first()[i - 1]);
                assert(rest.contains(x));
                let j = rest.index_of(x);
                if keep[0] {
                    assert(kept(s, keep)[j + 1] == x);
                } else {
                    assert(kept(s, keep)[j] == x);
                }
            }
        }
    }
}

/// What is kept of two sequences of one length, by the same positions,
/// pairs up as the two did.
pub proof fn lemma_kept_pairs<A, B>(a: Seq<A>, b: Seq<B>, keep: Seq<bool>, j: int)
    requires
        a.len() == keep.len(),
        b.len() == keep.len(),
        0 <= j < kept(a, keep).len(),
    ensures
        kept(b, keep).len() == kept(a, keep).len(),
        exists|i: int|
            0 <= i < a.len() && keep[i] && #[trigger] a[i] == kept(a, keep)[j] && b[i] == kept(
                b,
                keep,
            )[j],
    decreases a.len(),
{
    lemma_kept_len(a, b, keep);
    if a.len() > 0 {
        let a1 = a.drop_first();
        let b1 = b.drop_first();
        let k1 = keep.drop_first();
        lemma_kept_len(a1, b1, k1);
        if keep[0] && j == 0 {
            assert(a[0] == kept(a, keep)[0] && b[0] == kept(b, keep)[0]);
        } else {
            let j1 = if keep[0] { j - 1 } else { j };
            lemma_kept_pairs(a1, b1, k1, j1);
            let i = choose|i: int|
                0 <= i < a1.len() && k1[i] && #[trigger] a1[i] == kept(a1, k1)[j1] && b1[i] == kept(
                    b1,
                    k1,
                )[j1];
            assert(a[i + 1] == kept(a, keep)[j] && b[i + 1] == kept(b, keep)[j] && keep[i + 1]);
        }
    }
}

/// What is kept of two sequences of one length, by the same positions, is
/// equally long.
pub proof fn lemma_kept_len<A, B>(a: Seq<A>, b: Seq<B>, keep: Seq<bool>)
    requires
        a.len() == keep.len(),
        b.len() == keep.len(),
    ensures
        kept(b, keep).len() == kept(a, keep).len(),
    decreases a.len(),
{
    if a.len() > 0 {
        lemma_kept_len(a.drop_first(), b.drop_first(), keep.drop_first());
    }
}

/// Whether the key `key` begins with the parts of `prefix`.
pub open spec fn under(key: KeyView, prefix: KeyView) -> bool {
    prefix.len() <= key.len() && key.take(prefix.len() as int) == prefix
}

/// For each of `keys` whether it does not begin with `prefix`.
pub open spec fn outside(keys: Seq<KeyView>, prefix: KeyView) -> Seq<bool> {
    Seq::new(keys.len(), |i: int| !under(keys[i], prefix))
}

/// Whether the key `key` begins with the parts of `prefix`.
pub fn key_under(key: &Vec<String>, prefix: &Vec<String>) -> (r: bool)
    ensures
        r == under(texts(key@), texts(prefix@)),
{
    if prefix.len() > key.len() {
        return false;
    }
    let mut i: usize = 0;
    while i < prefix.len()
        invariant
            prefix.len() <= key.len(),
            i <= prefix.len(),
            forall|k: int| 0 <= k < i ==> key@[k]@ == prefix@[k]@,
        decreases prefix.len() - i,
    {
        if key[i] != prefix[i] {
            assert(texts(key@).take(prefix.len() as int)[i as int] != texts(prefix@)[i as int]);
            return false;
        }
        i = i + 1;
    }
    assert(texts(key@).take(prefix.len() as int) =~= texts(prefix@));
    true
}

/// Rows under distinct keys, in insertion order.
pub struct Table<V> {
    keys: Vec<Vec<String>>,
    rows: Vec<V>,
}

impl<V> Table<V> {
    /// The keys, in insertion order.
    pub closed spec fn keys(&self) -> Seq<KeyView> {
        Seq::new(self.keys@.len(), |i: int| texts(self.keys@[i]@))
    }

    /// The rows, each at the position of its key.
    pub closed spec fn rows(&self) -> Seq<V> {
        self.rows@
    }

    /// There is one row for each key, and no key occurs twice.
    pub closed spec fn wf(&self) -> bool {
        &&& self.keys@.len() == self.rows@.len()
        &&& self.keys().no_duplicates()
    }

    /// Whether a row stands under `key`.
    pub open spec fn has(&self, key: KeyView) -> bool {
        self.keys().contains(key)
    }

    /// The position of `key`.
    pub open spec fn position(&self, key: KeyView) -> int {
        self.keys().index_of(key)
    }

    /// The row under `key`.
    pub open spec fn row(&self, key: KeyView) -> V {
        self.rows()[self.position(key)]
    }

    /// The rows by their keys.
    pub open spec fn map(&self) -> Map<KeyView, V> {
        Map::new(|k: KeyView| self.has(k), |k: KeyView| self.row(k))
    }

    /// A table with one more row at its end maps one more key.
    pub proof fn lemma_pushed(&self, next: &Table<V>, key: KeyView, row: V)
        requires
            self.wf(),
            next.wf(),
            next.keys() == self.keys().push(key),
            next.rows() == self.rows().push(row),
        ensures
            !self.has(key),
            next.map() == self.map().insert(key, row),
    {
        let n = self.keys().len() as int;
        assert(next.keys()[n] == key);
        next.lemma_position(n);
        if self.has(key) {
            let j = self.keys().index_of(key);
            assert(next.keys()[j] == key);
        }
        assert forall|k: KeyView| next.has(k) <==> self.has(k) || k == key by {
            if self.has(k) {
                let j = self.keys().index_of(k);
                assert(next.keys()[j] == k);
            }
            if next.has(k) && k != key {
                let j = next.keys().index_of(k);
                assert(self.keys()[j] == k);
            }
        }
        assert forall|k: KeyView| self.has(k) implies next.row(k) == self.row(k) by {
            let j = self.keys().index_of(k);
            assert(next.keys()[j] == k);
            next.lemma_position(j);
        }
        assert(next.map() =~= self.map().insert(key, row));
    }

    /// A table with another row in the place of one maps that row's key to
    /// the new row.
    pub proof fn lemma_replaced(&self, next: &Table<V>, i: int, row: V)
        requires
            self.wf(),
            next.wf(),
            0 <= i < self.keys().len(),
            next.keys() == self.keys(),
            next.rows() == self.rows().update(i, row),
        ensures
            next.map() == self.map().insert(self.keys()[i], row),
    {
        self.lemma_position(i);
        next.lemma_position(i);
        assert forall|k: KeyView| self.has(k) && k != self.keys()[i] implies next.row(k)
            == self.row(k) by {
            let j = self.keys().index_of(k);
            assert(self.keys()[j] == k);
        }
        assert(next.map() =~= self.map().insert(self.keys()[i], row));
    }

    /// A table without one of its rows maps the other keys as before.
    pub proof fn lemma_removed(&self, next: &Table<V>, i: int)
        requires
            self.wf(),
            next.wf(),
            0 <= i < self.keys().len(),
            next.keys() == self.keys().remove(i),
            next.rows() == self.rows().remove(i),
        ensures
            next.map() == self.map().remove(self.keys()[i]),
    {
        let key = self.keys()[i];
        self.lemma_position(i);
        assert forall|k: KeyView| next.has(k) <==> self.has(k) && k != key by {
            if next.has(k) {
                let j = next.keys().index_of(k);
                let j0 = if j < i { j } else { j + 1 };
                assert(self.keys()[j0] == k);
            }
            if self.has(k) && k != key {
                let j0 = self.keys().index_of(k);
                let j = if j0 < i { j0 } else { j0 - 1 };
                assert(next.keys()[j] == k);
            }
        }
        assert forall|k: KeyView| next.has(k) implies next.row(k) == self.row(k) by {
            let j = next.keys().index_of(k);
            let j0 = if j < i { j } else { j + 1 };
            assert(self.keys()[j0] == k);
            self.lemma_position(j0);
        }
        assert(next.map() =~= self.map().remove(key));
    }

    /// A table of which some rows were kept maps the keys of those rows
    /// as before, and no others.
    pub proof fn lemma_kept_map(&self, next: &Table<V>, keep: Seq<bool>)
        requires
            self.wf(),
            next.wf(),
            keep.len() == self.keys().len(),
            next.keys() == kept(self.keys(), keep),
            next.rows() == kept(self.rows(), keep),
        ensures
            forall|k: KeyView| #[trigger]
                next.has(k) <==> self.has(k) && keep[self.position(k)],
            forall|k: KeyView| #[trigger] next.has(k) ==> next.row(k) == self.row(k),
    {
        self.lemma_len();
        assert forall|k: KeyView| #[trigger]
            next.has(k) <==> self.has(k) && keep[self.position(k)] by {
            lemma_kept(self.keys(), keep, k);
            if next.has(k) {
                let i = choose|i: int|
                    0 <= i < self.keys().len() && keep[i] && #[trigger] self.keys()[i] == k;
                self.lemma_position(i);
            }
            if self.has(k) && keep[self.position(k)] {
                let i = self.position(k);
                assert(0 <= i < self.keys().len() && keep[i] && self.keys()[i] == k);
            }
        }
        assert forall|k: KeyView| #[trigger] next.has(k) implies next.row(k) == self.row(k) by {
            let j = next.position(k);
            assert(next.keys()[j] == k);
            lemma_kept_pairs(self.keys(), self.rows(), keep, j);
            let i = choose|i: int|
                0 <= i < self.keys().len() && keep[i] && #[trigger] self.keys()[i] == kept(
                    self.keys(),
                    keep,
                )[j] && self.rows()[i] == kept(self.rows(), keep)[j];
            self.lemma_position(i);
        }
    }

    /// A table from which the rows under `prefix` were dropped holds the
    /// other rows, each under its key as before.
    pub proof fn lemma_dropped(&self, next: &Table<V>, prefix: KeyView)
        requires
            self.wf(),
            next.wf(),
            next.keys() == kept(self.keys(), outside(self.keys(), prefix)),
            next.rows() == kept(self.rows(), outside(self.keys(), prefix)),
        ensures
            forall|k: KeyView| #[trigger] next.has(k) <==> self.has(k) && !under(k, prefix),
            forall|k: KeyView| #[trigger] next.has(k) ==> next.row(k) == self.row(k),
            forall|j: int|
                #![trigger next.keys()[j]]
                0 <= j < next.keys().len() ==> exists|i: int|
                    0 <= i < self.keys().len() && #[trigger] self.keys()[i] == next.keys()[j]
                        && self.rows()[i] == next.rows()[j],
    {
        let keep = outside(self.keys(), prefix);
        self.lemma_len();
        next.lemma_len();
        self.lemma_kept_map(next, keep);
        assert forall|k: KeyView| #[trigger] next.has(k) <==> self.has(k) && !under(k, prefix) by {
            if self.has(k) {
                let i = self.position(k);
                assert(self.keys()[i] == k);
            }
        }
        assert forall|j: int|
            #![trigger next.keys()[j]]
            0 <= j < next.keys().len() implies exists|i: int|
            0 <= i < self.keys().len() && #[trigger] self.keys()[i] == next.keys()[j]
                && self.rows()[i] == next.rows()[j] by {
            lemma_kept_pairs(self.keys(), self.rows(), keep, j);
            let i = choose|i: int|
                0 <= i < self.keys().len() && keep[i] && #[trigger] self.keys()[i] == kept(
                    self.keys(),
                    keep,
                )[j] && self.rows()[i] == kept(self.rows(), keep)[j];
            assert(self.keys()[i] == next.keys()[j] && self.rows()[i] == next.rows()[j]);
        }
    }

    /// In a well-formed table no key occurs twice.
    pub proof fn lemma_no_duplicates(&self)
        requires
            self.wf(),
        ensures
            self.keys().no_duplicates(),
    {
    }

    /// In a well-formed table keys and rows are equally many.
    pub proof fn lemma_len(&self)
        requires
            self.wf(),
        ensures
            self.keys().len() == self.rows().len(),
    {
    }

    /// The position of a key that is present is that of its only occurrence.
    pub proof fn lemma_position(&self, i: int)
        requires
            self.wf(),
            0 <= i < self.keys().len(),
        ensures
            self.has(self.keys()[i]),
            self.position(self.keys()[i]) == i,
    {
        let k = self.keys()[i];
        assert(self.keys().contains(k));
        let j = self.keys().index_of(k);
        assert(0 <= j < self.keys().len() && self.keys()[j] == k);
    }

    /// An empty table.
    pub fn new() -> (t: Self)
        ensures
            t.wf(),
            t.keys() == Seq::<KeyView>::empty(),
            t.rows() == Seq::<V>::empty(),
    {
        let t = Table { keys: Vec::new(), rows: Vec::new() };
        assert(t.keys() =~= Seq::<KeyView>::empty());
        t
    }

    /// The number of rows.
    pub fn len(&self) -> (n: usize)
        requires
            self.wf(),
        ensures
            n == self.keys().len(),
            n == self.rows().len(),
    {
        self.rows.len()
    }

    /// Where `key` stands, if it does.
    pub fn find(&self, key: &Vec<String>) -> (r: Option<usize>)
        requires
            self.wf(),
        ensures
            r is Some <==> self.has(texts(key@)),
            r matches Some(i) ==> i < self.keys().len() && i < self.rows().len() && self.position(
                texts(key@),
            ) == i && self.keys()[i as int] == texts(key@),
    {
        let mut i: usize = 0;
        while i < self.keys.len()
            invariant
                self.wf(),
                i <= self.keys@.len(),
                forall|k: int| 0 <= k < i ==> self.keys()[k] != texts(key@),
            decreases self.keys@.len() - i,
        {
            if same_key(&self.keys[i], key) {
                proof {
                    self.lemma_position(i as int);
                }
                return Some(i);
            }
            i = i + 1;
        }
        None
    }

    /// Whether a row stands under `key`.
    pub fn contains(&self, key: &Vec<String>) -> (r: bool)
        requires
            self.wf(),
        ensures
            r == self.has(texts(key@)),
    {
        self.find(key).is_some()
    }

    /// The row at position `i`.
    pub fn get(&self, i: usize) -> (r: &V)
        requires
            self.wf(),
            i < self.rows().len(),
        ensures
            *r == self.rows()[i as int],
    {
        &self.rows[i]
    }

    /// The key at position `i`.
    pub fn key_at(&self, i: usize) -> (r: &Vec<String>)
        requires
            self.wf(),
            i < self.keys().len(),
        ensures
            texts(r@) == self.keys()[i as int],
    {
        &self.keys[i]
    }

    /// Adds `row` under `key` at the end, unless the key is taken. Answers
    /// whether the row was added.
    pub fn insert(&mut self, key: Vec<String>, row: V) -> (added: bool)
        requires
            old(self).wf(),
        ensures
            final(self).wf(),
            added == !old(self).has(texts(key@)),
            added ==> final(self).keys() == old(self).keys().push(texts(key@)) && final(self).rows() == old(self).rows().push(row),
            !added ==> final(self).keys() == old(self).keys() && final(self).rows() == old(self).rows(),
    {
        if self.contains(&key) {
            return false;
        }
        let ghost k = texts(key@);
        self.keys.push(key);
        self.rows.push(row);
        assert(self.keys() =~= old(self).keys().push(k));
        true
    }

    /// Puts `row` in place of the row at position `i`.
    pub fn replace(&mut self, i: usize, row: V)
        requires
            old(self).wf(),
            i < old(self).rows().len(),
        ensures
            final(self).wf(),
            final(self).keys() == old(self).keys(),
            final(self).rows() == old(self).rows().update(i as int, row),
    {
        self.rows.set(i, row);
        assert(self.keys() =~= old(self).keys());
    }

    /// Keeps the rows at the positions where `keep` holds `true` and drops
    /// the others.
    pub fn keep(&mut self, keep: &Vec<bool>)
        requires
            old(self).wf(),
            keep.len() == old(self).keys().len(),
        ensures
            final(self).wf(),
            final(self).keys() == kept(old(self).keys(), keep@),
            final(self).rows() == kept(old(self).rows(), keep@),
    {
        let mut i: usize = keep.len();
        proof {
            let n = i as int;
            assert(old(self).keys().take(n) =~= old(self).keys());
            assert(old(self).rows().take(n) =~= old(self).rows());
            assert(old(self).keys().skip(n).len() == 0);
            assert(old(self).rows().skip(n).len() == 0);
            assert(self.keys() =~= self.keys().take(n) + kept(
                old(self).keys().skip(n),
                keep@.skip(n),
            ));
            assert(self.rows() =~= self.rows().take(n) + kept(
                old(self).rows().skip(n),
                keep@.skip(n),
            ));
        }
        while i > 0
            invariant
                self.wf(),
                i <= keep.len(),
                keep.len() == old(self).keys().len(),
                old(self).keys().len() == old(self).rows().len(),
                self.keys() == old(self).keys().take(i as int) + kept(
                    old(self).keys().skip(i as int),
                    keep@.skip(i as int),
                ),
                self.rows() == old(self).rows().take(i as int) + kept(
                    old(self).rows().skip(i as int),
                    keep@.skip(i as int),
                ),
            decreases i,
        {
            let ghost keys0 = old(self).keys();
            let ghost rows0 = old(self).rows();
            let ghost before_keys = self.keys();
            let ghost before_rows = self.rows();
            let ghost tail_keys = kept(keys0.skip(i as int), keep@.skip(i as int));
            let ghost tail_rows = kept(rows0.skip(i as int), keep@.skip(i as int));
            i = i - 1;
            proof {
                assert(keys0.skip(i as int).drop_first() =~= keys0.skip(i + 1));
                assert(rows0.skip(i as int).drop_first() =~= rows0.skip(i + 1));
                assert(keep@.skip(i as int).drop_first() =~= keep@.skip(i + 1));
                assert(keys0.skip(i as int)[0] == keys0[i as int]);
                assert(rows0.skip(i as int)[0] == rows0[i as int]);
                assert(keep@.skip(i as int)[0] == keep@[i as int]);
            }
            if keep[i] {
                proof {
                    assert(before_keys =~= keys0.take(i as int) + (seq![keys0[i as int]]
                        + tail_keys));
                    assert(before_rows =~= rows0.take(i as int) + (seq![rows0[i as int]]
                        + tail_rows));
                }
            } else {
                let _ = self.keys.remove(i);
                let _ = self.rows.remove(i);
                proof {
                    assert(self.keys() =~= before_keys.remove(i as int));
                    assert(before_keys.remove(i as int) =~= keys0.take(i as int) + tail_keys);
                    assert(self.rows() =~= rows0.take(i as int) + tail_rows);
                    let new_keys = self.keys();
                    assert forall|a: int, b: int|
                        0 <= a < new_keys.len() && 0 <= b < new_keys.len() && a != b implies new_keys[a]
                        != new_keys[b] by {
                        let a0 = if a < i { a } else { a + 1 };
                        let b0 = if b < i { b } else { b + 1 };
                        assert(new_keys[a] == before_keys[a0]);
                        assert(new_keys[b] == before_keys[b0]);
                    }
                }
            }
        }
        proof {
            assert(old(self).keys().take(0) =~= Seq::<KeyView>::empty());
            assert(old(self).rows().take(0) =~= Seq::<V>::empty());
            assert(old(self).keys().skip(0) =~= old(self).keys());
            assert(old(self).rows().skip(0) =~= old(self).rows());
            assert(keep@.skip(0) =~= keep@);
            assert(self.keys() =~= kept(old(self).keys(), keep@));
            assert(self.rows() =~= kept(old(self).rows(), keep@));
        }
    }

    /// Drops the rows whose keys begin with `prefix` and keeps the others.
    pub fn remove_under(&mut self, prefix: &Vec<String>)
        requires
            old(self).wf(),
        ensures
            final(self).wf(),
            final(self).keys() == kept(
                old(self).keys(),
                outside(old(self).keys(), texts(prefix@)),
            ),
            final(self).rows() == kept(
                old(self).rows(),
                outside(old(self).keys(), texts(prefix@)),
            ),
    {
        let mut keep: Vec<bool> = Vec::new();
        let mut i: usize = 0;
        while i < self.keys.len()
            invariant
                *self == *old(self),
                self.wf(),
                i <= self.keys@.len(),
                keep@.len() == i,
                forall|k: int|
                    0 <= k < i ==> #[trigger] keep@[k] == !under(self.keys()[k], texts(prefix@)),
            decreases self.keys@.len() - i,
        {
            keep.push(!key_under(&self.keys[i], prefix));
            i = i + 1;
        }
        assert(keep@ =~= outside(self.keys(), texts(prefix@)));
        self.keep(&keep);
    }

    /// Takes out the row under `key`, if there is one, and hands it back.
    /// The rows behind it move up by one.
    pub fn remove(&mut self, key: &Vec<String>) -> (r: Option<V>)
        requires
            old(self).wf(),
        ensures
            final(self).wf(),
            r is Some <==> old(self).has(texts(key@)),
            !final(self).has(texts(key@)),
            r matches Some(row) ==> {
                let i = old(self).position(texts(key@));
                &&& row == old(self).rows()[i]
                &&& final(self).keys() == old(self).keys().remove(i)
                &&& final(self).rows() == old(self).rows().remove(i)
            },
            r is None ==> final(self).keys() == old(self).keys() && final(self).rows() == old(self).rows(),
    {
        match self.find(key) {
            Some(i) => {
                let _ = self.keys.remove(i);
                let row = self.rows.remove(i);
                assert(self.keys() =~= old(self).keys().remove(i as int));
                proof {
                    let old_keys = old(self).keys();
                    let new_keys = old_keys.remove(i as int);
                    assert forall|a: int, b: int|
                        0 <= a < new_keys.len() && 0 <= b < new_keys.len() && a != b implies new_keys[a]
                        != new_keys[b] by {
                        let a0 = if a < i { a } else { a + 1 };
                        let b0 = if b < i { b } else { b + 1 };
                        assert(new_keys[a] == old_keys[a0]);
                        assert(new_keys[b] == old_keys[b0]);
                    }
                    assert forall|a: int| 0 <= a < new_keys.len() implies new_keys[a] != texts(
                        key@,
                    ) by {
                        let a0 = if a < i { a } else { a + 1 };
                        assert(new_keys[a] == old_keys[a0]);
                    }
                }
                Some(row)
            },
            None => None,
        }
    }
}

} // verus!

//! A map with string keys kept in the order of `String`'s `Ord` (byte order
//! of UTF-8, which is code point order): the cookie jars, the gesture
//! bindings, board categories and the expanded categories of the board tree.

use vstd::prelude::*;
use crate::textseq::chars_of;

verus! {

/// Code point order of two strings (`String`'s `Ord`: UTF-8 byte order is
/// code point order).
pub open spec fn seq_less(a: Seq<char>, b: Seq<char>) -> bool
    decreases a.len(),
{
    if a.len() == 0 {
        b.len() > 0
    } else if b.len() == 0 {
        false
    } else if a[0] != b[0] {
        a[0] < b[0]
    } else {
        seq_less(a.skip(1), b.skip(1))
    }
}

pub proof fn lemma_less_irreflexive(a: Seq<char>)
    ensures
        !seq_less(a, a),
    decreases a.len(),
{
    if a.len() > 0 {
        lemma_less_irreflexive(a.skip(1));
    }
}

pub proof fn lemma_less_transitive(a: Seq<char>, b: Seq<char>, c: Seq<char>)
    requires
        seq_less(a, b),
        seq_less(b, c),
    ensures
        seq_less(a, c),
    decreases a.len(),
{
    if a.len() > 0 && b.len() > 0 && c.len() > 0 {
        if a[0] == b[0] && b[0] == c[0] {
            lemma_less_transitive(a.skip(1), b.skip(1), c.skip(1));
        }
    }
}

pub proof fn lemma_less_total(a: Seq<char>, b: Seq<char>)
    requires
        a != b,
    ensures
        seq_less(a, b) || seq_less(b, a),
    decreases a.len(),
{
    if a.len() > 0 && b.len() > 0 && a[0] == b[0] {
        if a.skip(1) == b.skip(1) {
            assert(a =~= seq![a[0]] + a.skip(1));
            assert(b =~= seq![b[0]] + b.skip(1));
        }
        lemma_less_total(a.skip(1), b.skip(1));
    } else if a.len() > 0 && b.len() > 0 {
        assert(a[0] < b[0] || b[0] < a[0]);
    } else if a.len() == 0 && b.len() == 0 {
        assert(a =~= b);
    }
}

/// Whether `a` orders before `b`.
pub fn less_chars(a: &Vec<char>, b: &Vec<char>) -> (r: bool)
    ensures
        r == seq_less(a@, b@),
{
    let mut i: usize = 0;
    assert(a@.skip(0) =~= a@ && b@.skip(0) =~= b@);
    while i < a.len() && i < b.len()
        invariant
            i <= a.len(),
            i <= b.len(),
            seq_less(a@, b@) == seq_less(a@.skip(i as int), b@.skip(i as int)),
        decreases a.len() - i,
    {
        let x = a[i];
        let y = b[i];
        assert(a@.skip(i as int)[0] == x && b@.skip(i as int)[0] == y);
        if x != y {
            return x < y;
        }
        assert(a@.skip(i as int).skip(1) =~= a@.skip(i + 1));
        assert(b@.skip(i as int).skip(1) =~= b@.skip(i + 1));
        i += 1;
    }
    a.len() - i == 0 && b.len() - i > 0
}

/// Whether `a` and `b` hold the same characters.
pub fn eq_chars(a: &Vec<char>, b: &Vec<char>) -> (r: bool)
    ensures
        r == (a@ == b@),
{
    if a.len() != b.len() {
        return false;
    }
    let mut i: usize = 0;
    while i < a.len()
        invariant
            i <= a.len() == b.len(),
            forall|j: int| 0 <= j < i ==> a@[j] == b@[j],
        decreases a.len() - i,
    {
        if a[i] != b[i] {
            return false;
        }
        i += 1;
    }
    assert(a@ =~= b@);
    true
}

/// Whether two texts are the same.
pub fn str_eq(a: &str, b: &str) -> (r: bool)
    ensures
        r == (a@ == b@),
{
    eq_chars(&crate::textseq::chars_of(a), &crate::textseq::chars_of(b))
}

/// The keys of a list of entries.
pub open spec fn keys_of<V>(e: Seq<(String, V)>) -> Seq<Seq<char>> {
    e.map_values(|p: (String, V)| p.0@)
}

/// Strictly increasing keys.
pub open spec fn sorted_keys(k: Seq<Seq<char>>) -> bool {
    forall|i: int, j: int| 0 <= i < j < k.len() ==> seq_less(#[trigger] k[i], #[trigger] k[j])
}

/// The value stored under `k`.
pub open spec fn lookup_in<V>(e: Seq<(String, V)>, k: Seq<char>) -> Option<V>
    decreases e.len(),
{
    if e.len() == 0 {
        None
    } else if e.last().0@ == k {
        Some(e.last().1)
    } else {
        lookup_in(e.drop_last(), k)
    }
}

pub proof fn lemma_sorted_distinct(k: Seq<Seq<char>>, i: int, j: int)
    requires
        sorted_keys(k),
        0 <= i < k.len(),
        0 <= j < k.len(),
        i != j,
    ensures
        k[i] != k[j],
{
    if i < j {
        assert(seq_less(k[i], k[j]));
        if k[i] == k[j] {
            lemma_less_irreflexive(k[i]);
        }
    } else {
        assert(seq_less(k[j], k[i]));
        if k[i] == k[j] {
            lemma_less_irreflexive(k[i]);
        }
    }
}

pub proof fn lemma_lookup_at<V>(e: Seq<(String, V)>, i: int)
    requires
        sorted_keys(keys_of(e)),
        0 <= i < e.len(),
    ensures
        lookup_in(e, e[i].0@) == Some(e[i].1),
    decreases e.len(),
{
    if i < e.len() - 1 {
        lemma_sorted_distinct(keys_of(e), i, e.len() - 1);
        assert(keys_of(e)[i] == e[i].0@);
        assert(keys_of(e)[e.len() - 1] == e.last().0@);
        let d = e.drop_last();
        assert(keys_of(d) =~= keys_of(e).drop_last());
        assert(d[i] == e[i]);
        lemma_lookup_at(d, i);
    }
}

pub proof fn lemma_lookup_absent<V>(e: Seq<(String, V)>, k: Seq<char>)
    requires
        forall|i: int| 0 <= i < e.len() ==> e[i].0@ != k,
    ensures
        lookup_in(e, k) is None,
    decreases e.len(),
{
    if e.len() > 0 {
        assert(e.last() == e[e.len() - 1]);
        let d = e.drop_last();
        assert forall|i: int| 0 <= i < d.len() implies d[i].0@ != k by {
            assert(d[i] == e[i]);
        }
        lemma_lookup_absent(d, k);
    }
}

/// A map from strings, with its entries in key order.
pub struct StrMap<V> {
    entries: Vec<(String, V)>,
}

impl<V> StrMap<V> {
    pub closed spec fn entries_view(&self) -> Seq<(String, V)> {
        self.entries@
    }

    /// The keys, in order.
    pub open spec fn keys(&self) -> Seq<Seq<char>> {
        keys_of(self.entries_view())
    }

    /// The entries' keys increase strictly.
    pub open spec fn wf(&self) -> bool {
        sorted_keys(self.keys())
    }

    /// The value under `k`, if any.
    pub open spec fn lookup(&self, k: Seq<char>) -> Option<V> {
        lookup_in(self.entries_view(), k)
    }

    pub open spec fn has(&self, k: Seq<char>) -> bool {
        self.keys().contains(k)
    }

    pub fn new() -> (r: Self)
        ensures
            r.wf(),
            r.keys().len() == 0,
            r.entries_view().len() == 0,
            forall|k: Seq<char>| #[trigger] r.lookup(k) is None,
            forall|k: Seq<char>| !#[trigger] r.has(k),
    {
        StrMap { entries: Vec::new() }
    }

    pub fn len(&self) -> (r: usize)
        ensures
            r == self.entries_view().len(),
    {
        self.entries.len()
    }

    pub fn is_empty(&self) -> (r: bool)
        ensures
            r == (self.entries_view().len() == 0),
    {
        self.entries.len() == 0
    }

    /// The entries, in key order.
    pub fn entries(&self) -> (r: &Vec<(String, V)>)
        ensures
            r@ == self.entries_view(),
    {
        &self.entries
    }

    /// Where `k` is, or where it would go.
    fn position(&self, k: &Vec<char>) -> (r: (usize, bool))
        requires
            self.wf(),
        ensures
            r.0 <= self.entries_view().len(),
            forall|j: int| 0 <= j < r.0 ==> seq_less(#[trigger] self.keys()[j], k@),
            r.1 ==> r.0 < self.entries_view().len() && self.keys()[r.0 as int] == k@,
            !r.1 ==> r.0 < self.entries_view().len() ==> seq_less(k@, self.keys()[r.0 as int]),
    {
        let mut i: usize = 0;
        while i < self.entries.len()
            invariant
                i <= self.entries@.len(),
                forall|j: int| 0 <= j < i ==> seq_less(#[trigger] self.keys()[j], k@),
            decreases self.entries.len() - i,
        {
            let key = chars_of(self.entries[i].0.as_str());
            assert(self.keys()[i as int] == key@);
            if !less_chars(&key, k) {
                if eq_chars(&key, k) {
                    return (i, true);
                }
                proof {
                    lemma_less_total(key@, k@);
                }
                return (i, false);
            }
            i += 1;
        }
        (i, false)
    }

    /// Whether `k` has a value.
    pub fn contains_key(&self, k: &str) -> (r: bool)
        requires
            self.wf(),
        ensures
            r == self.has(k@),
            r == (self.lookup(k@) is Some),
    {
        let kv = chars_of(k);
        let (i, found) = self.position(&kv);
        proof {
            if found {
                lemma_lookup_at(self.entries@, i as int);
                assert(self.keys()[i as int] == k@);
            } else {
                self.lemma_absent_after_position(kv@, i as int);
            }
        }
        found
    }

    proof fn lemma_absent_after_position(&self, k: Seq<char>, i: int)
        requires
            self.wf(),
            0 <= i <= self.entries_view().len(),
            forall|j: int| 0 <= j < i ==> seq_less(#[trigger] self.keys()[j], k),
            i < self.entries_view().len() ==> seq_less(k, self.keys()[i]),
        ensures
            !self.has(k),
            self.lookup(k) is None,
    {
        let ks = self.keys();
        assert forall|j: int| 0 <= j < ks.len() implies ks[j] != k by {
            if j < i {
                assert(seq_less(ks[j], k));
                if ks[j] == k {
                    lemma_less_irreflexive(k);
                }
            } else {
                if j > i {
                    assert(seq_less(ks[i], ks[j]));
                    lemma_less_transitive(k, ks[i], ks[j]);
                }
                if ks[j] == k {
                    lemma_less_irreflexive(k);
                }
            }
        }
        assert forall|j: int| 0 <= j < self.entries_view().len() implies self.entries_view()[j].0@
            != k by {
            assert(ks[j] == self.entries_view()[j].0@);
        }
        lemma_lookup_absent(self.entries_view(), k);
    }

    /// The value under `k`.
    pub fn get(&self, k: &str) -> (r: Option<&V>)
        requires
            self.wf(),
        ensures
            match r {
                Some(v) => self.lookup(k@) == Some(*v),
                None => self.lookup(k@) is None,
            },
    {
        let kv = chars_of(k);
        let (i, found) = self.position(&kv);
        if found {
            proof {
                lemma_lookup_at(self.entries@, i as int);
            }
            Some(&self.entries[i].1)
        } else {
            proof {
                self.lemma_absent_after_position(kv@, i as int);
            }
            None
        }
    }

    /// Stores `v` under `k`, replacing any value it had.
    pub fn insert(&mut self, k: String, v: V)
        requires
            old(self).wf(),
        ensures
            final(self).wf(),
            final(self).lookup(k@) == Some(v),
            forall|q: Seq<char>| q != k@ ==> final(self).lookup(q) == old(self).lookup(q),
            forall|q: Seq<char>| final(self).has(q) <==> (old(self).has(q) || q == k@),
    {
        let kv = chars_of(k.as_str());
        let (i, found) = self.position(&kv);
        let ghost old_e = self.entries@;
        let ghost old_keys = keys_of(old_e);
        if found {
            self.entries.set(i, (k, v));
            proof {
                let ne = self.entries@;
                assert(keys_of(ne) =~= old_keys);
                lemma_lookup_at(ne, i as int);
                assert forall|q: Seq<char>| q != kv@ implies lookup_in(ne, q) == lookup_in(old_e, q) by {
                    self.lemma_lookup_same(old_e, ne, i as int, q);
                }
                assert forall|q: Seq<char>| keys_of(ne).contains(q) <==> (old_keys.contains(q) || q
                    == kv@) by {
                    if q == kv@ {
                        assert(old_keys[i as int] == q);
                    }
                }
            }
        } else {
            self.entries.insert(i, (k, v));
            proof {
                let ne = self.entries@;
                let nk = keys_of(ne);
                assert(nk =~= old_keys.insert(i as int, kv@));
                assert forall|a: int, b: int| 0 <= a < b < nk.len() implies seq_less(
                    #[trigger] nk[a],
                    #[trigger] nk[b],
                ) by {
                    if b < i {
                        assert(seq_less(old_keys[a], old_keys[b]));
                    } else if b == i {
                        assert(seq_less(old_keys[a], kv@));
                    } else if a == i {
                        assert(seq_less(kv@, old_keys[i as int]));
                        if b - 1 > i {
                            assert(seq_less(old_keys[i as int], old_keys[b - 1]));
                            lemma_less_transitive(kv@, old_keys[i as int], old_keys[b - 1]);
                        }
                    } else if a < i {
                        assert(seq_less(old_keys[a], kv@));
                        assert(seq_less(kv@, old_keys[i as int]));
                        lemma_less_transitive(old_keys[a], kv@, old_keys[i as int]);
                        if b - 1 > i {
                            assert(seq_less(old_keys[i as int], old_keys[b - 1]));
                            lemma_less_transitive(old_keys[a], old_keys[i as int], old_keys[b - 1]);
                        }
                    } else {
                        assert(seq_less(old_keys[a - 1], old_keys[b - 1]));
                    }
                }
                assert(ne[i as int].0@ == kv@);
                lemma_lookup_at(ne, i as int);
                self.lemma_absent_after_position_old(old_e, kv@, i as int);
                assert forall|q: Seq<char>| q != kv@ implies lookup_in(ne, q) == lookup_in(old_e, q) by {
                    self.lemma_lookup_inserted(old_e, ne, i as int, q);
                }
                assert forall|q: Seq<char>| nk.contains(q) <==> (old_keys.contains(q) || q == kv@) by {
                    if nk.contains(q) {
                        let j = choose|j: int| 0 <= j < nk.len() && nk[j] == q;
                        if j < i {
                            assert(old_keys[j] == q);
                        } else if j > i {
                            assert(old_keys[j - 1] == q);
                        }
                    }
                    if old_keys.contains(q) {
                        let j = choose|j: int| 0 <= j < old_keys.len() && old_keys[j] == q;
                        if j < i {
                            assert(nk[j] == q);
                        } else {
                            assert(nk[j + 1] == q);
                        }
                    }
                    if q == kv@ {
                        assert(nk[i as int] == q);
                    }
                }
            }
        }
    }

    /// Takes the value under `k` out of the map.
    pub fn remove(&mut self, k: &str) -> (r: Option<V>)
        requires
            old(self).wf(),
        ensures
            final(self).wf(),
            r == old(self).lookup(k@),
            final(self).lookup(k@) is None,
            forall|q: Seq<char>| q != k@ ==> final(self).lookup(q) == old(self).lookup(q),
            forall|q: Seq<char>| final(self).has(q) <==> (old(self).has(q) && q != k@),
    {
        let kv = chars_of(k);
        let (i, found) = self.position(&kv);
        if !found {
            proof {
                self.lemma_absent_after_position(kv@, i as int);
            }
            return None;
        }
        let ghost old_e = self.entries@;
        let ghost old_keys = keys_of(old_e);
        proof {
            lemma_lookup_at(old_e, i as int);
        }
        let (_, v) = self.entries.remove(i);
        proof {
            let ne = self.entries@;
            let nk = keys_of(ne);
            assert(nk =~= old_keys.remove(i as int));
            assert forall|a: int, b: int| 0 <= a < b < nk.len() implies seq_less(
                #[trigger] nk[a],
                #[trigger] nk[b],
            ) by {
                if a < i && b < i {
                    assert(seq_less(old_keys[a], old_keys[b]));
                } else if a < i {
                    assert(seq_less(old_keys[a], old_keys[b + 1]));
                } else {
                    assert(seq_less(old_keys[a + 1], old_keys[b + 1]));
                }
            }
            assert forall|j: int| 0 <= j < ne.len() implies ne[j].0@ != kv@ by {
                if j < i {
                    lemma_sorted_distinct(old_keys, j, i as int);
                    assert(old_keys[j] == ne[j].0@);
                } else {
                    lemma_sorted_distinct(old_keys, j + 1, i as int);
                    assert(old_keys[j + 1] == ne[j].0@);
                }
            }
            lemma_lookup_absent(ne, kv@);
            assert forall|q: Seq<char>| q != kv@ implies lookup_in(ne, q) == lookup_in(old_e, q) by {
                if exists|j: int| 0 <= j < old_e.len() && old_e[j].0@ == q {
                    let j = choose|j: int| 0 <= j < old_e.len() && old_e[j].0@ == q;
                    lemma_lookup_at(old_e, j);
                    assert(j != i);
                    if j < i {
                        assert(ne[j] == old_e[j]);
                        lemma_lookup_at(ne, j);
                    } else {
                        assert(ne[j - 1] == old_e[j]);
                        lemma_lookup_at(ne, j - 1);
                    }
                } else {
                    lemma_lookup_absent(old_e, q);
                    assert forall|j: int| 0 <= j < ne.len() implies ne[j].0@ != q by {
                        if j < i {
                            assert(ne[j] == old_e[j]);
                        } else {
                            assert(ne[j] == old_e[j + 1]);
                        }
                    }
                    lemma_lookup_absent(ne, q);
                }
            }
            assert forall|q: Seq<char>| nk.contains(q) <==> (old_keys.contains(q) && q != kv@) by {
                if nk.contains(q) {
                    let j = choose|j: int| 0 <= j < nk.len() && nk[j] == q;
                    if j < i {
                        assert(old_keys[j] == q);
                    } else {
                        assert(old_keys[j + 1] == q);
                    }
                    assert(ne[j].0@ == q);
                }
                if old_keys.contains(q) && q != kv@ {
                    let j = choose|j: int| 0 <= j < old_keys.len() && old_keys[j] == q;
                    assert(j != i);
                    if j < i {
                        assert(nk[j] == q);
                    } else {
                        assert(nk[j - 1] == q);
                    }
                }
            }
        }
        Some(v)
    }

    proof fn lemma_absent_after_position_old(&self, e: Seq<(String, V)>, k: Seq<char>, i: int)
        requires
            sorted_keys(keys_of(e)),
            0 <= i <= e.len(),
            forall|j: int| 0 <= j < i ==> seq_less(#[trigger] keys_of(e)[j], k),
            i < e.len() ==> seq_less(k, keys_of(e)[i]),
        ensures
            forall|j: int| 0 <= j < e.len() ==> e[j].0@ != k,
    {
        let ks = keys_of(e);
        assert forall|j: int| 0 <= j < e.len() implies e[j].0@ != k by {
            assert(ks[j] == e[j].0@);
            if j < i {
                assert(seq_less(ks[j], k));
                if ks[j] == k {
                    lemma_less_irreflexive(k);
                }
            } else {
                if j > i {
                    assert(seq_less(ks[i], ks[j]));
                    lemma_less_transitive(k, ks[i], ks[j]);
                }
                if ks[j] == k {
                    lemma_less_irreflexive(k);
                }
            }
        }
    }

    proof fn lemma_lookup_same(&self, old_e: Seq<(String, V)>, ne: Seq<(String, V)>, i: int, q: Seq<
        char,
    >)
        requires
            sorted_keys(keys_of(old_e)),
            0 <= i < old_e.len(),
            ne.len() == old_e.len(),
            forall|j: int| 0 <= j < ne.len() && j != i ==> ne[j] == old_e[j],
            ne[i].0@ == old_e[i].0@,
            q != old_e[i].0@,
        ensures
            lookup_in(ne, q) == lookup_in(old_e, q),
    {
        assert(keys_of(ne) =~= keys_of(old_e));
        if exists|j: int| 0 <= j < old_e.len() && old_e[j].0@ == q {
            let j = choose|j: int| 0 <= j < old_e.len() && old_e[j].0@ == q;
            lemma_lookup_at(old_e, j);
            lemma_lookup_at(ne, j);
        } else {
            lemma_lookup_absent(old_e, q);
            assert forall|j: int| 0 <= j < ne.len() implies ne[j].0@ != q by {
                if j != i {
                    assert(ne[j] == old_e[j]);
                }
            }
            lemma_lookup_absent(ne, q);
        }
    }

    proof fn lemma_lookup_inserted(
        &self,
        old_e: Seq<(String, V)>,
        ne: Seq<(String, V)>,
        i: int,
        q: Seq<char>,
    )
        requires
            sorted_keys(keys_of(old_e)),
            sorted_keys(keys_of(ne)),
            0 <= i <= old_e.len(),
            ne.len() == old_e.len() + 1,
            forall|j: int| 0 <= j < i ==> ne[j] == old_e[j],
            forall|j: int| i < j < ne.len() ==> ne[j] == old_e[j - 1],
            q != ne[i].0@,
        ensures
            lookup_in(ne, q) == lookup_in(old_e, q),
    {
        if exists|j: int| 0 <= j < old_e.len() && old_e[j].0@ == q {
            let j = choose|j: int| 0 <= j < old_e.len() && old_e[j].0@ == q;
            lemma_lookup_at(old_e, j);
            if j < i {
                lemma_lookup_at(ne, j);
            } else {
                assert(ne[j + 1] == old_e[j]);
                lemma_lookup_at(ne, j + 1);
            }
        } else {
            lemma_lookup_absent(old_e, q);
            assert forall|j: int| 0 <= j < ne.len() implies ne[j].0@ != q by {
                if j < i {
                    assert(ne[j] == old_e[j]);
                } else if j > i {
                    assert(ne[j] == old_e[j - 1]);
                }
            }
            lemma_lookup_absent(ne, q);
        }
    }
}

} // verus!

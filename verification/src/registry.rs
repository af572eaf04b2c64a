//! A keyed registry of subscribers: at most one entry per key, looked up by
//! the key's view. Both the device command table and the command router
//! keep their subscribers in it.
use vstd::prelude::*;

verus! {

/// A key whose executable comparison agrees with equality of its view.
pub trait RegistryKey: View + Sized {
    fn same_key(&self, other: &Self) -> (r: bool)
        ensures
            r == (self@ == other@),
    ;
}

impl RegistryKey for String {
    fn same_key(&self, other: &Self) -> (r: bool) {
        *self == *other
    }
}

/// The view of the key stored at position `i` of a sequence of entries.
pub open spec fn key_at<K: View, V>(s: Seq<(K, V)>, i: int) -> K::V {
    s[i].0@
}

/// No two entries share a key.
pub open spec fn keys_distinct<K: View, V>(s: Seq<(K, V)>) -> bool {
    forall|i: int, j: int|
        0 <= i < s.len() && 0 <= j < s.len() && i != j ==> #[trigger] key_at(s, i) != #[trigger] key_at(
            s,
            j,
        )
}

/// Whether some entry of `s` has key `k`.
pub open spec fn has_key<K: View, V>(s: Seq<(K, V)>, k: K::V) -> bool {
    exists|i: int| 0 <= i < s.len() && #[trigger] key_at(s, i) == k
}

/// The map from keys to values that a sequence of entries stands for.
pub open spec fn entries_map<K: View, V>(s: Seq<(K, V)>) -> Map<K::V, V> {
    Map::new(
        |k: K::V| has_key(s, k),
        |k: K::V| s[choose|i: int| 0 <= i < s.len() && #[trigger] key_at(s, i) == k].1,
    )
}

/// The entry at a position is what the map gives for its key.
pub proof fn lemma_entry_in_map<K: View, V>(s: Seq<(K, V)>, i: int)
    requires
        keys_distinct(s),
        0 <= i < s.len(),
    ensures
        entries_map(s).contains_key(key_at(s, i)),
        entries_map(s)[key_at(s, i)] == s[i].1,
{
    let k = key_at(s, i);
    assert(has_key(s, k));
    let j = choose|j: int| 0 <= j < s.len() && #[trigger] key_at(s, j) == k;
    assert(key_at(s, j) == k);
    assert(j == i);
}

/// The map of a sequence of entries with distinct keys holds exactly the
/// keys of the entries, each with the value of its entry.
pub proof fn law_entries_map_is_entries<K: View, V>(s: Seq<(K, V)>, k: K::V)
    requires
        keys_distinct(s),
    ensures
        entries_map(s).contains_key(k) <==> exists|i: int| 0 <= i < s.len() && #[trigger] s[i].0@ == k,
        forall|i: int| 0 <= i < s.len() && #[trigger] s[i].0@ == k ==> entries_map(s)[k] == s[i].1,
{
    assert forall|i: int| 0 <= i < s.len() && #[trigger] s[i].0@ == k implies entries_map(s)[k]
        == s[i].1 by {
        lemma_entry_in_map(s, i);
    }
    if entries_map(s).contains_key(k) {
        let i = choose|i: int| 0 <= i < s.len() && #[trigger] key_at(s, i) == k;
        assert(s[i].0@ == k);
    }
    if exists|i: int| 0 <= i < s.len() && #[trigger] s[i].0@ == k {
        let i = choose|i: int| 0 <= i < s.len() && #[trigger] s[i].0@ == k;
        assert(key_at(s, i) == k);
    }
}

/// No two entries share a key, stated over the entries themselves.
pub proof fn law_keys_distinct_is_pairwise<K: View, V>(s: Seq<(K, V)>)
    ensures
        keys_distinct(s) <==> forall|i: int, j: int|
            0 <= i < s.len() && 0 <= j < s.len() && i != j ==> #[trigger] s[i].0@ != #[trigger] s[j].0@,
{
    if keys_distinct(s) {
        assert forall|i: int, j: int|
            0 <= i < s.len() && 0 <= j < s.len() && i != j implies #[trigger] s[i].0@
            != #[trigger] s[j].0@ by {
            assert(key_at(s, i) != key_at(s, j));
        }
    }
    if forall|i: int, j: int|
        0 <= i < s.len() && 0 <= j < s.len() && i != j ==> #[trigger] s[i].0@ != #[trigger] s[j].0@ {
        assert forall|i: int, j: int|
            0 <= i < s.len() && 0 <= j < s.len() && i != j implies #[trigger] key_at(s, i)
            != #[trigger] key_at(s, j) by {
            assert(s[i].0@ != s[j].0@);
        }
    }
}

/// Appending an entry with a fresh key inserts it into the map.
pub proof fn lemma_push_fresh<K: View, V>(s: Seq<(K, V)>, e: (K, V))
    requires
        keys_distinct(s),
        !has_key(s, e.0@),
    ensures
        keys_distinct(s.push(e)),
        entries_map(s.push(e)) =~= entries_map(s).insert(e.0@, e.1),
{
    let t = s.push(e);
    assert forall|i: int| 0 <= i < s.len() implies #[trigger] key_at(t, i) == key_at(s, i) by {}
    assert(key_at(t, s.len() as int) == e.0@);
    assert forall|i: int, j: int|
        0 <= i < t.len() && 0 <= j < t.len() && i != j implies #[trigger] key_at(t, i)
        != #[trigger] key_at(t, j) by {
        if i < s.len() && j < s.len() {
            assert(key_at(s, i) != key_at(s, j));
        } else if i < s.len() {
            assert(key_at(s, i) != e.0@);
        } else {
            assert(key_at(s, j) != e.0@);
        }
    }
    let m = entries_map(s).insert(e.0@, e.1);
    assert forall|k: K::V| #[trigger] entries_map(t).contains_key(k) == m.contains_key(k) by {
        if has_key(s, k) {
            let i = choose|i: int| 0 <= i < s.len() && #[trigger] key_at(s, i) == k;
            assert(key_at(t, i) == k);
        }
        if has_key(t, k) {
            let i = choose|i: int| 0 <= i < t.len() && #[trigger] key_at(t, i) == k;
            if i < s.len() {
                assert(key_at(s, i) == k);
            }
        }
    }
    assert forall|k: K::V| #[trigger] entries_map(t).contains_key(k) implies entries_map(t)[k]
        == m[k] by {
        let i = choose|i: int| 0 <= i < t.len() && #[trigger] key_at(t, i) == k;
        lemma_entry_in_map(t, i);
        if i < s.len() {
            lemma_entry_in_map(s, i);
        }
    }
}

/// Removing position `i` as `Vec::swap_remove` does removes its key from the map.
pub proof fn lemma_swap_remove<K: View, V>(s: Seq<(K, V)>, i: int)
    requires
        keys_distinct(s),
        0 <= i < s.len(),
    ensures
        keys_distinct(s.update(i, s.last()).drop_last()),
        entries_map(s.update(i, s.last()).drop_last()) =~= entries_map(s).remove(key_at(s, i)),
{
    let last = s.len() - 1;
    let t = s.update(i, s.last()).drop_last();
    // position p of t holds the entry at position src(p) of s
    assert forall|p: int| 0 <= p < t.len() implies #[trigger] key_at(t, p) == key_at(
        s,
        if p == i {
            last
        } else {
            p
        },
    ) && t[p] == s[if p == i {
        last
    } else {
        p
    }] by {}
    assert forall|p: int, q: int|
        0 <= p < t.len() && 0 <= q < t.len() && p != q implies #[trigger] key_at(t, p)
        != #[trigger] key_at(t, q) by {
        let sp = if p == i {
            last
        } else {
            p
        };
        let sq = if q == i {
            last
        } else {
            q
        };
        assert(key_at(s, sp) != key_at(s, sq));
    }
    let m = entries_map(s).remove(key_at(s, i));
    assert forall|k: K::V| #[trigger] entries_map(t).contains_key(k) == m.contains_key(k) by {
        if has_key(t, k) {
            let p = choose|p: int| 0 <= p < t.len() && #[trigger] key_at(t, p) == k;
            let sp = if p == i {
                last
            } else {
                p
            };
            assert(key_at(s, sp) == k);
            assert(sp != i);
            assert(key_at(s, sp) != key_at(s, i));
        }
        if m.contains_key(k) {
            let j = choose|j: int| 0 <= j < s.len() && #[trigger] key_at(s, j) == k;
            assert(j != i);
            if j == last {
                assert(key_at(t, i) == k);
            } else {
                assert(key_at(t, j) == k);
            }
        }
    }
    assert forall|k: K::V| #[trigger] entries_map(t).contains_key(k) implies entries_map(t)[k]
        == m[k] by {
        let p = choose|p: int| 0 <= p < t.len() && #[trigger] key_at(t, p) == k;
        lemma_entry_in_map(t, p);
        let sp = if p == i {
            last
        } else {
            p
        };
        lemma_entry_in_map(s, sp);
    }
}

/// Subscribers keyed by `K`, each holding a handle of type `V`.
pub struct Registry<K, V> {
    entries: Vec<(K, V)>,
}

impl<K: RegistryKey, V> View for Registry<K, V> {
    type V = Map<K::V, V>;

    closed spec fn view(&self) -> Map<K::V, V> {
        entries_map(self.entries@)
    }
}

impl<K: RegistryKey, V> Registry<K, V> {
    /// The registry's invariant: no key occurs twice.
    pub closed spec fn wf(&self) -> bool {
        keys_distinct(self.entries@)
    }

    /// The number of entries.
    pub closed spec fn spec_len(&self) -> nat {
        self.entries@.len()
    }

    /// The entries are finitely many, one per key of the view.
    pub proof fn lemma_len(&self)
        requires
            self.wf(),
        ensures
            self@.dom().finite(),
            self@.dom().len() == self.spec_len(),
    {
        let s = self.entries@;
        lemma_keys_len(s);
    }

    /// An empty registry.
    pub fn new() -> (r: Self)
        ensures
            r.wf(),
            r@ == Map::<K::V, V>::empty(),
    {
        let r = Registry { entries: Vec::new() };
        assert(r@ =~= Map::<K::V, V>::empty());
        r
    }

    /// The position of the entry with key `k`, if there is one.
    fn position(&self, k: &K) -> (r: Option<usize>)
        requires
            self.wf(),
        ensures
            match r {
                Some(i) => i < self.entries@.len() && key_at(self.entries@, i as int) == k@,
                None => !has_key(self.entries@, k@),
            },
    {
        let mut i: usize = 0;
        while i < self.entries.len()
            invariant
                i <= self.entries@.len(),
                forall|j: int| 0 <= j < i ==> #[trigger] key_at(self.entries@, j) != k@,
            decreases self.entries@.len() - i,
        {
            if self.entries[i].0.same_key(k) {
                return Some(i);
            }
            i = i + 1;
        }
        None
    }

    /// The handle stored under `k`, if any.
    pub fn get(&self, k: &K) -> (r: Option<&V>)
        requires
            self.wf(),
        ensures
            r == (if self@.contains_key(k@) {
                Some(&self@[k@])
            } else {
                None::<&V>
            }),
    {
        match self.position(k) {
            Some(i) => {
                proof {
                    lemma_entry_in_map(self.entries@, i as int);
                }
                Some(&self.entries[i].1)
            },
            None => None,
        }
    }

    /// Takes the entry with key `k` out, handing back its handle.
    pub fn remove(&mut self, k: &K) -> (r: Option<V>)
        requires
            old(self).wf(),
        ensures
            final(self).wf(),
            final(self)@ == old(self)@.remove(k@),
            r == (if old(self)@.contains_key(k@) {
                Some(old(self)@[k@])
            } else {
                None::<V>
            }),
    {
        match self.position(k) {
            Some(i) => {
                proof {
                    lemma_entry_in_map(self.entries@, i as int);
                    lemma_swap_remove(self.entries@, i as int);
                }
                let (_, v) = self.entries.swap_remove(i);
                Some(v)
            },
            None => {
                assert(self@ =~= self@.remove(k@));
                None
            },
        }
    }

    /// Stores `v` under `k`, replacing and handing back what was stored there.
    pub fn insert(&mut self, k: K, v: V) -> (r: Option<V>)
        requires
            old(self).wf(),
        ensures
            final(self).wf(),
            final(self)@ == old(self)@.insert(k@, v),
            r == (if old(self)@.contains_key(k@) {
                Some(old(self)@[k@])
            } else {
                None::<V>
            }),
    {
        let old_v = self.remove(&k);
        proof {
            assert(!self@.contains_key(k@));
            assert(!has_key(self.entries@, k@));
            lemma_push_fresh(self.entries@, (k, v));
        }
        self.entries.push((k, v));
        assert(self@ =~= old(self)@.insert(k@, v));
        old_v
    }

    /// Empties the registry, handing back every entry it held.
    pub fn drain(&mut self) -> (r: Vec<(K, V)>)
        requires
            old(self).wf(),
        ensures
            final(self).wf(),
            final(self)@ == Map::<K::V, V>::empty(),
            keys_distinct(r@),
            entries_map(r@) == old(self)@,
            r@.len() == old(self)@.len(),
    {
        proof {
            old(self).lemma_len();
        }
        let mut out: Vec<(K, V)> = Vec::new();
        std::mem::swap(&mut out, &mut self.entries);
        assert(self@ =~= Map::<K::V, V>::empty());
        out
    }
}

/// The number of distinct keys in a sequence of entries with distinct keys is its length.
pub proof fn lemma_keys_len<K: View, V>(s: Seq<(K, V)>)
    requires
        keys_distinct(s),
    ensures
        entries_map(s).dom().finite(),
        entries_map(s).dom().len() == s.len(),
    decreases s.len(),
{
    if s.len() == 0 {
        assert(entries_map(s).dom() =~= Set::<K::V>::empty());
    } else {
        let t = s.drop_last();
        let e = s.last();
        assert(keys_distinct(t)) by {
            assert forall|i: int, j: int|
                0 <= i < t.len() && 0 <= j < t.len() && i != j implies #[trigger] key_at(t, i)
                != #[trigger] key_at(t, j) by {
                assert(key_at(t, i) == key_at(s, i));
                assert(key_at(t, j) == key_at(s, j));
            }
        }
        assert(!has_key(t, e.0@)) by {
            if has_key(t, e.0@) {
                let i = choose|i: int| 0 <= i < t.len() && #[trigger] key_at(t, i) == e.0@;
                assert(key_at(s, i) == key_at(s, s.len() - 1));
            }
        }
        lemma_keys_len(t);
        lemma_push_fresh(t, e);
        assert(t.push(e) =~= s);
    }
}

} // verus!

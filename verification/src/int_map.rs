//! A map from `i32` keys to values, kept sorted by key, so that walking it
//! visits keys in increasing order.

use vstd::prelude::*;

verus! {

/// Keys strictly increasing.
pub open spec fn int_keys_increasing<V>(s: Seq<(i32, V)>) -> bool {
    forall|i: int, j: int| 0 <= i < j < s.len() ==> #[trigger] s[i].0 < #[trigger] s[j].0
}

/// The map a key-sorted entry sequence describes.
pub open spec fn int_entries_map<V>(s: Seq<(i32, V)>) -> Map<i32, V>
    decreases s.len(),
{
    if s.len() == 0 {
        Map::empty()
    } else {
        int_entries_map(s.drop_last()).insert(s.last().0, s.last().1)
    }
}

/// An integer-keyed map kept sorted by key.
#[derive(Debug)]
pub struct IntMap<V> {
    entries: Vec<(i32, V)>,
}

impl<V> IntMap<V> {
    /// Every map keeps its entries strictly increasing by key.
    #[verifier::type_invariant]
    pub open spec fn sorted(&self) -> bool {
        int_keys_increasing(self.entry_seq())
    }

    /// The entries in increasing key order.
    pub closed spec fn entry_seq(&self) -> Seq<(i32, V)> {
        self.entries@
    }

    /// The map's contents.
    pub open spec fn contents(&self) -> Map<i32, V> {
        int_entries_map(self.entry_seq())
    }

    /// An empty map.
    pub fn new() -> (m: Self)
        ensures
            m.entry_seq() == Seq::<(i32, V)>::empty(),
    {
        IntMap { entries: Vec::new() }
    }

    /// Number of entries.
    pub fn len(&self) -> (n: usize)
        ensures
            n == self.entry_seq().len(),
    {
        self.entries.len()
    }

    /// Whether the map has no entries.
    pub fn is_empty(&self) -> (b: bool)
        ensures
            b == (self.entry_seq().len() == 0),
    {
        self.entries.len() == 0
    }

    /// The key of the `i`-th entry in key order.
    pub fn key_at(&self, i: usize) -> (k: i32)
        requires
            i < self.entry_seq().len(),
        ensures
            k == self.entry_seq()[i as int].0,
    {
        self.entries[i].0
    }

    /// The value of the `i`-th entry in key order.
    pub fn value_at(&self, i: usize) -> (v: &V)
        requires
            i < self.entry_seq().len(),
        ensures
            *v == self.entry_seq()[i as int].1,
    {
        &self.entries[i].1
    }

    /// Position of `key` if present, else the position where it belongs.
    fn position(&self, key: i32) -> (r: (usize, bool))
        ensures
            r.0 <= self.entry_seq().len(),
            r.1 ==> r.0 < self.entry_seq().len() && self.entry_seq()[r.0 as int].0 == key,
            !r.1 ==> (forall|i: int| 0 <= i < r.0 ==> #[trigger] self.entry_seq()[i].0 < key),
            !r.1 ==> (forall|i: int|
                r.0 <= i < self.entry_seq().len() ==> key < #[trigger] self.entry_seq()[i].0),
    {
        proof {
            use_type_invariant(self);
        }
        let n = self.entries.len();
        let mut i: usize = 0;
        while i < n
            invariant
                int_keys_increasing(self.entry_seq()),
                n == self.entry_seq().len(),
                i <= n,
                forall|j: int| 0 <= j < i ==> #[trigger] self.entry_seq()[j].0 < key,
            decreases n - i,
        {
            let k = self.entries[i].0;
            if k == key {
                return (i, true);
            }
            if k > key {
                proof {
                    assert forall|j: int| i <= j < n implies key < #[trigger] self.entry_seq()[j].0 by {
                        if j > i {
                            assert(self.entry_seq()[i as int].0 < self.entry_seq()[j].0);
                        }
                    }
                }
                return (i, false);
            }
            i += 1;
        }
        (n, false)
    }

    /// Looks a key up.
    pub fn get(&self, key: &i32) -> (r: Option<&V>)
        ensures
            r is Some <==> self.contents().contains_key(*key),
            r is Some ==> *r->0 == self.contents()[*key],
    {
        proof {
            use_type_invariant(self);
            lemma_int_entries_map(self.entry_seq());
        }
        let (i, found) = self.position(*key);
        if found {
            Some(&self.entries[i].1)
        } else {
            proof {
                if self.contents().contains_key(*key) {
                    let j = choose|j: int| 0 <= j < self.entry_seq().len() && #[trigger] self.entry_seq()[j].0 == *key;
                    if j < i {
                        assert(self.entry_seq()[j].0 < *key);
                    } else {
                        assert(*key < self.entry_seq()[j].0);
                    }
                }
            }
            None
        }
    }

    /// Inserts or replaces the value under `key`.
    pub fn insert(&mut self, key: i32, value: V)
        ensures
            final(self).contents() == old(self).contents().insert(key, value),
            final(self).entry_seq().len() == old(self).entry_seq().len() + if old(
                self,
            ).contents().contains_key(key) {
                0int
            } else {
                1int
            },
    {
        proof {
            use_type_invariant(&*self);
            lemma_int_entries_map(self.entry_seq());
        }
        let (i, found) = self.position(key);
        let ghost old_seq = self.entries@;
        let mut entries: Vec<(i32, V)> = Vec::new();
        std::mem::swap(&mut entries, &mut self.entries);
        if found {
            entries.set(i, (key, value));
            proof {
                assert(entries@ == old_seq.update(i as int, (key, value)));
                assert(int_keys_increasing(entries@));
                assert forall|j: int| 0 <= j < old_seq.len() && j != i implies #[trigger] old_seq[j].0 != key by {
                    if j < i {
                        assert(old_seq[j].0 < old_seq[i as int].0);
                    } else {
                        assert(old_seq[i as int].0 < old_seq[j].0);
                    }
                }
                lemma_int_entries_map_update(old_seq, i as int, key, value);
            }
            self.entries = entries;
        } else {
            proof {
                assert forall|a: int, b: int| 0 <= a < b < old_seq.insert(i as int, (key, value)).len()
                    implies #[trigger] old_seq.insert(i as int, (key, value))[a].0 < #[trigger] old_seq.insert(
                    i as int,
                    (key, value),
                )[b].0 by {
                    let s = old_seq.insert(i as int, (key, value));
                    if a < i && b > i {
                        assert(s[a].0 < key);
                    }
                }
            }
            entries.insert(i, (key, value));
            self.entries = entries;
            proof {
                assert forall|j: int| 0 <= j < old_seq.len() implies #[trigger] old_seq[j].0 != key by {
                    if j < i {
                        assert(old_seq[j].0 < key);
                    } else {
                        assert(key < old_seq[j].0);
                    }
                }
                lemma_int_entries_map_insert(old_seq, i as int, key, value);
                if old(self).contents().contains_key(key) {
                    let j = choose|j: int| 0 <= j < old_seq.len() && #[trigger] old_seq[j].0 == key;
                    assert(old_seq[j].0 != key);
                }
            }
        }
    }
}

/// Membership and lookup in the map of a key-sorted sequence.
pub proof fn lemma_int_entries_map<V>(s: Seq<(i32, V)>)
    requires
        int_keys_increasing(s),
    ensures
        forall|k: i32|
            #[trigger] int_entries_map(s).contains_key(k) <==> exists|i: int|
                0 <= i < s.len() && #[trigger] s[i].0 == k,
        forall|i: int|
            0 <= i < s.len() ==> #[trigger] int_entries_map(s)[s[i].0] == s[i].1,
    decreases s.len(),
{
    if s.len() > 0 {
        let t = s.drop_last();
        let n = s.len() - 1;
        assert(int_keys_increasing(t));
        lemma_int_entries_map(t);
        assert(int_entries_map(s) == int_entries_map(t).insert(s[n].0, s[n].1));
        assert forall|k: i32| #[trigger] int_entries_map(s).contains_key(k) <==> exists|i: int|
            0 <= i < s.len() && #[trigger] s[i].0 == k by {
            if int_entries_map(t).contains_key(k) {
                let i = choose|i: int| 0 <= i < t.len() && #[trigger] t[i].0 == k;
                assert(s[i].0 == k);
            }
            if exists|i: int| 0 <= i < s.len() && #[trigger] s[i].0 == k {
                let i = choose|i: int| 0 <= i < s.len() && #[trigger] s[i].0 == k;
                if i < n {
                    assert(t[i].0 == k);
                }
            }
        }
        assert forall|i: int| 0 <= i < s.len() implies #[trigger] int_entries_map(s)[s[i].0] == s[i].1 by {
            if i < n {
                assert(t[i] == s[i]);
                assert(s[i].0 < s[n].0);
            }
        }
    }
}

proof fn lemma_int_entries_map_insert<V>(s: Seq<(i32, V)>, i: int, k: i32, v: V)
    requires
        0 <= i <= s.len(),
        forall|j: int| 0 <= j < s.len() ==> #[trigger] s[j].0 != k,
    ensures
        int_entries_map(s.insert(i, (k, v))) == int_entries_map(s).insert(k, v),
    decreases s.len(),
{
    let u = s.insert(i, (k, v));
    if i == s.len() {
        assert(u.drop_last() =~= s);
    } else {
        let t = s.drop_last();
        let n = s.len() - 1;
        assert(u.drop_last() =~= t.insert(i, (k, v)));
        assert(u.last() == s[n]);
        lemma_int_entries_map_insert(t, i, k, v);
        assert(s[n].0 != k);
        assert(int_entries_map(u) =~= int_entries_map(s).insert(k, v));
    }
}

proof fn lemma_int_entries_map_update<V>(s: Seq<(i32, V)>, i: int, k: i32, v: V)
    requires
        0 <= i < s.len(),
        s[i].0 == k,
        forall|j: int| 0 <= j < s.len() && j != i ==> #[trigger] s[j].0 != k,
    ensures
        int_entries_map(s.update(i, (k, v))) == int_entries_map(s).insert(k, v),
    decreases s.len(),
{
    let u = s.update(i, (k, v));
    let t = s.drop_last();
    let n = s.len() - 1;
    if i == n {
        assert(u.drop_last() =~= t);
        assert(int_entries_map(u) =~= int_entries_map(s).insert(k, v));
    } else {
        assert(u.drop_last() =~= t.update(i, (k, v)));
        assert(u.last() == s[n]);
        lemma_int_entries_map_update(t, i, k, v);
        assert(s[n].0 != k);
        assert(int_entries_map(u) =~= int_entries_map(s).insert(k, v));
    }
}

/// Two key-sorted sequences with the same map are equal.
pub proof fn lemma_int_entries_canonical<V>(a: Seq<(i32, V)>, b: Seq<(i32, V)>)
    requires
        int_keys_increasing(a),
        int_keys_increasing(b),
        int_entries_map(a) == int_entries_map(b),
    ensures
        a == b,
    decreases a.len() + b.len(),
{
    lemma_int_entries_map(a);
    lemma_int_entries_map(b);
    if a.len() == 0 || b.len() == 0 {
        if a.len() > 0 {
            assert(int_entries_map(a).contains_key(a[0].0));
        }
        if b.len() > 0 {
            assert(int_entries_map(b).contains_key(b[0].0));
        }
        assert(a =~= b);
    } else {
        let na = a.len() - 1;
        let nb = b.len() - 1;
        let ka = a[na].0;
        let kb = b[nb].0;
        assert(int_entries_map(a).contains_key(ka));
        assert(int_entries_map(b).contains_key(kb));
        let ja = choose|j: int| 0 <= j < b.len() && #[trigger] b[j].0 == ka;
        let jb = choose|j: int| 0 <= j < a.len() && #[trigger] a[j].0 == kb;
        if ka < kb {
            assert(a[jb].0 <= a[na].0);
        } else if kb < ka {
            assert(b[ja].0 <= b[nb].0);
        }
        assert(a[na].1 == int_entries_map(a)[ka]);
        assert(b[nb].1 == int_entries_map(b)[kb]);
        assert(a[na] == b[nb]);
        let ta = a.drop_last();
        let tb = b.drop_last();
        assert(int_keys_increasing(ta));
        assert(int_keys_increasing(tb));
        lemma_int_entries_map(ta);
        lemma_int_entries_map(tb);
        assert forall|k: i32| #[trigger] int_entries_map(ta).contains_key(k) == int_entries_map(tb).contains_key(k) by {
            if int_entries_map(ta).contains_key(k) {
                let i = choose|i: int| 0 <= i < ta.len() && #[trigger] ta[i].0 == k;
                assert(a[i].0 < a[na].0);
                assert(int_entries_map(a).contains_key(k));
                let j = choose|j: int| 0 <= j < b.len() && #[trigger] b[j].0 == k;
                assert(j != nb);
                assert(tb[j].0 == k);
            }
            if int_entries_map(tb).contains_key(k) {
                let i = choose|i: int| 0 <= i < tb.len() && #[trigger] tb[i].0 == k;
                assert(b[i].0 < b[nb].0);
                assert(int_entries_map(b).contains_key(k));
                let j = choose|j: int| 0 <= j < a.len() && #[trigger] a[j].0 == k;
                assert(j != na);
                assert(ta[j].0 == k);
            }
        }
        assert forall|k: i32| #[trigger] int_entries_map(ta).contains_key(k) implies int_entries_map(ta)[k]
            == int_entries_map(tb)[k] by {
            let i = choose|i: int| 0 <= i < ta.len() && #[trigger] ta[i].0 == k;
            let j = choose|j: int| 0 <= j < tb.len() && #[trigger] tb[j].0 == k;
            assert(a[i].0 == k);
            assert(b[j].0 == k);
            assert(int_entries_map(a)[k] == a[i].1);
            assert(int_entries_map(b)[k] == b[j].1);
        }
        assert(int_entries_map(ta) =~= int_entries_map(tb));
        lemma_int_entries_canonical(ta, tb);
        assert(a =~= ta.push(a[na]));
        assert(b =~= tb.push(b[nb]));
    }
}

} // verus!

//! A map from strings to values that keeps its entries sorted by key in
//! byte order, the order `String`'s `Ord` uses. Walking it visits the keys
//! in sorted order, so anything computed from a walk depends only on the
//! map's contents, never on the order of insertion.

use vstd::prelude::*;
use vstd::utf8::{encode_utf8, decode_utf8, encode_utf8_decode_utf8};
use vstd::string::StringSliceAdditionalSpecFns;
use vstd::relations::{total_ordering, sorted_by, reflexive, antisymmetric, transitive, strongly_connected};

verus! {

/// Strict lexicographic order on byte sequences.
pub open spec fn bytes_lt(a: Seq<u8>, b: Seq<u8>) -> bool
    decreases a.len(),
{
    if a.len() == 0 {
        b.len() > 0
    } else if b.len() == 0 {
        false
    } else if a[0] < b[0] {
        true
    } else if a[0] > b[0] {
        false
    } else {
        bytes_lt(a.drop_first(), b.drop_first())
    }
}

/// Strict order on string keys: byte order of their UTF-8 encodings.
pub open spec fn key_lt(a: Seq<char>, b: Seq<char>) -> bool {
    bytes_lt(encode_utf8(a), encode_utf8(b))
}

pub proof fn lemma_bytes_lt_irreflexive(a: Seq<u8>)
    ensures
        !bytes_lt(a, a),
    decreases a.len(),
{
    if a.len() > 0 {
        lemma_bytes_lt_irreflexive(a.drop_first());
    }
}

pub proof fn lemma_bytes_lt_transitive(a: Seq<u8>, b: Seq<u8>, c: Seq<u8>)
    requires
        bytes_lt(a, b),
        bytes_lt(b, c),
    ensures
        bytes_lt(a, c),
    decreases a.len(),
{
    if a.len() > 0 && b.len() > 0 && c.len() > 0 {
        if a[0] == b[0] && b[0] == c[0] {
            lemma_bytes_lt_transitive(a.drop_first(), b.drop_first(), c.drop_first());
        }
    }
}

pub proof fn lemma_bytes_lt_total(a: Seq<u8>, b: Seq<u8>)
    requires
        a != b,
    ensures
        bytes_lt(a, b) || bytes_lt(b, a),
    decreases a.len(),
{
    if a.len() > 0 && b.len() > 0 && a[0] == b[0] {
        if a.drop_first() == b.drop_first() {
            assert(a =~= seq![a[0]] + a.drop_first());
            assert(b =~= seq![b[0]] + b.drop_first());
        }
        lemma_bytes_lt_total(a.drop_first(), b.drop_first());
    }
    if a.len() == 0 && b.len() == 0 {
        assert(a =~= b);
    }
}

pub proof fn lemma_key_lt_irreflexive(a: Seq<char>)
    ensures
        !key_lt(a, a),
{
    lemma_bytes_lt_irreflexive(encode_utf8(a));
}

pub proof fn lemma_key_lt_transitive(a: Seq<char>, b: Seq<char>, c: Seq<char>)
    requires
        key_lt(a, b),
        key_lt(b, c),
    ensures
        key_lt(a, c),
{
    lemma_bytes_lt_transitive(encode_utf8(a), encode_utf8(b), encode_utf8(c));
}

pub proof fn lemma_key_lt_total(a: Seq<char>, b: Seq<char>)
    requires
        a != b,
    ensures
        key_lt(a, b) || key_lt(b, a),
{
    encode_utf8_decode_utf8(a);
    encode_utf8_decode_utf8(b);
    lemma_bytes_lt_total(encode_utf8(a), encode_utf8(b));
}

proof fn lemma_bytes_lt_common_prefix(a: Seq<u8>, b: Seq<u8>, i: int)
    requires
        0 <= i <= a.len(),
        i <= b.len(),
        a.subrange(0, i) == b.subrange(0, i),
    ensures
        bytes_lt(a, b) == bytes_lt(a.subrange(i, a.len() as int), b.subrange(i, b.len() as int)),
    decreases i,
{
    if i == 0 {
        assert(a.subrange(0, a.len() as int) =~= a);
        assert(b.subrange(0, b.len() as int) =~= b);
    } else {
        assert(a[0] == a.subrange(0, i)[0]);
        assert(b[0] == b.subrange(0, i)[0]);
        assert(a.drop_first().subrange(0, i - 1) =~= a.subrange(0, i).drop_first());
        assert(b.drop_first().subrange(0, i - 1) =~= b.subrange(0, i).drop_first());
        lemma_bytes_lt_common_prefix(a.drop_first(), b.drop_first(), i - 1);
        assert(a.drop_first().subrange(i - 1, a.len() - 1) =~= a.subrange(i, a.len() as int));
        assert(b.drop_first().subrange(i - 1, b.len() - 1) =~= b.subrange(i, b.len() as int));
    }
}

/// Three-way result of comparing two keys.
#[derive(Clone, Copy, Debug, PartialEq, Eq, Structural)]
pub enum KeyOrder {
    Less,
    Equal,
    Greater,
}

/// Compares two strings in byte order.
pub fn compare_keys(a: &str, b: &str) -> (c: KeyOrder)
    ensures
        c == KeyOrder::Less <==> key_lt(a@, b@),
        c == KeyOrder::Equal <==> a@ == b@,
        c == KeyOrder::Greater <==> key_lt(b@, a@),
{
    let x = a.as_bytes();
    let y = b.as_bytes();
    let ghost ea = encode_utf8(a@);
    let ghost eb = encode_utf8(b@);
    proof {
        encode_utf8_decode_utf8(a@);
        encode_utf8_decode_utf8(b@);
        lemma_bytes_lt_irreflexive(ea);
        lemma_bytes_lt_irreflexive(eb);
    }
    let n = x.len();
    let m = y.len();
    let mut i: usize = 0;
    while i < n && i < m
        invariant
            x@ == ea,
            y@ == eb,
            ea == encode_utf8(a@),
            eb == encode_utf8(b@),
            n == ea.len(),
            m == eb.len(),
            i <= n,
            i <= m,
            ea.subrange(0, i as int) == eb.subrange(0, i as int),
        decreases n - i,
    {
        if x[i] != y[i] {
            proof {
                lemma_bytes_lt_common_prefix(ea, eb, i as int);
                lemma_bytes_lt_common_prefix(eb, ea, i as int);
                assert(ea.subrange(i as int, n as int)[0] == ea[i as int]);
                assert(eb.subrange(i as int, m as int)[0] == eb[i as int]);
                assert(ea != eb);
                if a@ == b@ {
                    assert(ea == eb);
                }
            }
            if x[i] < y[i] {
                return KeyOrder::Less;
            } else {
                return KeyOrder::Greater;
            }
        }
        proof {
            assert(ea.subrange(0, i + 1) =~= ea.subrange(0, i as int).push(ea[i as int]));
            assert(eb.subrange(0, i + 1) =~= eb.subrange(0, i as int).push(eb[i as int]));
        }
        i += 1;
    }
    proof {
        lemma_bytes_lt_common_prefix(ea, eb, i as int);
        lemma_bytes_lt_common_prefix(eb, ea, i as int);
    }
    if n == m {
        proof {
            assert(ea =~= ea.subrange(0, n as int));
            assert(eb =~= eb.subrange(0, m as int));
        }
        KeyOrder::Equal
    } else if n < m {
        proof {
            assert(ea =~= ea.subrange(0, n as int));
            assert(ea != eb);
            if a@ == b@ {
                assert(ea == eb);
            }
        }
        KeyOrder::Less
    } else {
        proof {
            assert(eb =~= eb.subrange(0, m as int));
            assert(ea != eb);
            if a@ == b@ {
                assert(ea == eb);
            }
        }
        KeyOrder::Greater
    }
}

/// Entries strictly increasing by key.
pub open spec fn keys_increasing<V>(s: Seq<(Seq<char>, V)>) -> bool {
    forall|i: int, j: int| 0 <= i < j < s.len() ==> key_lt(#[trigger] s[i].0, #[trigger] s[j].0)
}

/// The map that a sequence of key/value entries describes (a later entry
/// wins over an earlier one with the same key).
pub open spec fn entries_map<V>(s: Seq<(Seq<char>, V)>) -> Map<Seq<char>, V>
    decreases s.len(),
{
    if s.len() == 0 {
        Map::empty()
    } else {
        entries_map(s.drop_last()).insert(s.last().0, s.last().1)
    }
}

/// A key is in the map exactly when some entry carries it.
pub proof fn lemma_entries_map_contains<V>(s: Seq<(Seq<char>, V)>, k: Seq<char>)
    ensures
        entries_map(s).contains_key(k) <==> exists|i: int| 0 <= i < s.len() && #[trigger] s[i].0 == k,
    decreases s.len(),
{
    if s.len() > 0 {
        lemma_entries_map_contains(s.drop_last(), k);
        if entries_map(s.drop_last()).contains_key(k) {
            let i = choose|i: int| 0 <= i < s.drop_last().len() && #[trigger] s.drop_last()[i].0 == k;
            assert(s[i].0 == k);
        }
        if exists|i: int| 0 <= i < s.len() && #[trigger] s[i].0 == k {
            let i = choose|i: int| 0 <= i < s.len() && #[trigger] s[i].0 == k;
            if i < s.len() - 1 {
                assert(s.drop_last()[i].0 == k);
            }
        }
    }
}

/// A string-keyed map kept sorted by key.
#[derive(Clone, Debug)]
pub struct StringMap<V> {
    entries: Vec<(String, V)>,
}

impl<V: DeepView> StringMap<V> {
    /// The entries in key order, keys and values by their views.
    pub closed spec fn entry_seq(&self) -> Seq<(Seq<char>, V::V)> {
        self.entries@.map_values(|e: (String, V)| (e.0@, e.1.deep_view()))
    }

    /// Well-formed: keys strictly increasing, so no key occurs twice.
    pub open spec fn wf(&self) -> bool {
        keys_increasing(self.entry_seq())
    }

    /// The map's contents.
    pub open spec fn contents(&self) -> Map<Seq<char>, V::V> {
        entries_map(self.entry_seq())
    }

    /// An empty map.
    pub fn new() -> (m: Self)
        ensures
            m.wf(),
            m.entry_seq() == Seq::<(Seq<char>, V::V)>::empty(),
    {
        let m = StringMap { entries: Vec::new() };
        proof {
            assert(m.entry_seq() =~= Seq::<(Seq<char>, V::V)>::empty());
        }
        m
    }

    /// Number of entries.
    pub fn len(&self) -> (n: usize)
        ensures
            n == self.entry_seq().len(),
    {
        self.entries.len()
    }

    /// Whether the map has no entries.
    pub fn is_empty(&self) -> (b: bool)
        ensures
            b == (self.entry_seq().len() == 0),
    {
        self.entries.len() == 0
    }

    /// The key of the `i`-th entry in key order.
    pub fn key_at(&self, i: usize) -> (k: &String)
        requires
            i < self.entry_seq().len(),
        ensures
            k@ == self.entry_seq()[i as int].0,
    {
        &self.entries[i].0
    }

    /// The value of the `i`-th entry in key order.
    pub fn value_at(&self, i: usize) -> (v: &V)
        requires
            i < self.entry_seq().len(),
        ensures
            v.deep_view() == self.entry_seq()[i as int].1,
    {
        &self.entries[i].1
    }

    /// Replaces the value of the `i`-th entry, keeping its key.
    pub fn replace_value_at(&mut self, i: usize, value: V)
        requires
            old(self).wf(),
            i < old(self).entry_seq().len(),
        ensures
            final(self).wf(),
            final(self).entry_seq() == old(self).entry_seq().update(
                i as int,
                (old(self).entry_seq()[i as int].0, value.deep_view()),
            ),
    {
        let k = self.entries[i].0.clone();
        let ghost v = value.deep_view();
        self.entries.set(i, (k, value));
        proof {
            assert(self.entry_seq() =~= old(self).entry_seq().update(
                i as int,
                (old(self).entry_seq()[i as int].0, v),
            ));
            let s = self.entry_seq();
            assert forall|a: int, b: int| 0 <= a < b < s.len() implies key_lt(
                #[trigger] s[a].0,
                #[trigger] s[b].0,
            ) by {
                assert(s[a].0 == old(self).entry_seq()[a].0);
                assert(s[b].0 == old(self).entry_seq()[b].0);
            }
        }
    }

    /// Position of `key` if present, else the position where it belongs.
    pub fn position(&self, key: &str) -> (r: (usize, bool))
        requires
            self.wf(),
        ensures
            r.0 <= self.entry_seq().len(),
            r.1 ==> r.0 < self.entry_seq().len() && self.entry_seq()[r.0 as int].0 == key@,
            !r.1 ==> (forall|i: int| 0 <= i < r.0 ==> key_lt(#[trigger] self.entry_seq()[i].0, key@)),
            !r.1 ==> (forall|i: int|
                r.0 <= i < self.entry_seq().len() ==> key_lt(key@, #[trigger] self.entry_seq()[i].0)),
    {
        let n = self.entries.len();
        let mut i: usize = 0;
        while i < n
            invariant
                self.wf(),
                n == self.entry_seq().len(),
                i <= n,
                forall|j: int| 0 <= j < i ==> key_lt(#[trigger] self.entry_seq()[j].0, key@),
            decreases n - i,
        {
            let c = compare_keys(self.entries[i].0.as_str(), key);
            match c {
                KeyOrder::Equal => {
                    return (i, true);
                },
                KeyOrder::Greater => {
                    proof {
                        assert forall|j: int| i <= j < n implies key_lt(
                            key@,
                            #[trigger] self.entry_seq()[j].0,
                        ) by {
                            if j > i {
                                lemma_key_lt_transitive(
                                    key@,
                                    self.entry_seq()[i as int].0,
                                    self.entry_seq()[j].0,
                                );
                            }
                        }
                    }
                    return (i, false);
                },
                KeyOrder::Less => {},
            }
            i += 1;
        }
        (n, false)
    }

    /// Looks a key up.
    pub fn get(&self, key: &str) -> (r: Option<&V>)
        requires
            self.wf(),
        ensures
            r is Some <==> self.contents().contains_key(key@),
            r is Some ==> r->0.deep_view() == self.contents()[key@],
    {
        let (i, found) = self.position(key);
        proof {
            lemma_entries_map_index(self.entry_seq());
        }
        if found {
            Some(&self.entries[i].1)
        } else {
            proof {
                lemma_entries_map_contains(self.entry_seq(), key@);
                if self.contents().contains_key(key@) {
                    let j = choose|j: int| 0 <= j < self.entry_seq().len() && #[trigger] self.entry_seq()[j].0 == key@;
                    lemma_key_lt_irreflexive(key@);
                    if j < i {
                        assert(key_lt(self.entry_seq()[j].0, key@));
                    } else {
                        assert(key_lt(key@, self.entry_seq()[j].0));
                    }
                }
            }
            None
        }
    }

    /// Inserts or replaces the value under `key`.
    pub fn insert(&mut self, key: String, value: V)
        requires
            old(self).wf(),
        ensures
            final(self).wf(),
            final(self).contents() == old(self).contents().insert(key@, value.deep_view()),
            final(self).entry_seq().len() == old(self).entry_seq().len() + if old(
                self,
            ).contents().contains_key(key@) {
                0int
            } else {
                1int
            },
    {
        let (i, found) = self.position(key.as_str());
        let ghost old_seq = self.entry_seq();
        let ghost k = key@;
        let ghost v = value.deep_view();
        proof {
            lemma_entries_map_index(old_seq);
        }
        if found {
            self.entries.set(i, (key, value));
            proof {
                assert(self.entry_seq() =~= old_seq.update(i as int, (k, v)));
                assert forall|j: int| 0 <= j < old_seq.len() && j != i implies #[trigger] old_seq[j].0 != k by {
                    lemma_key_lt_irreflexive(k);
                    if j < i {
                        assert(key_lt(old_seq[j].0, old_seq[i as int].0));
                    } else {
                        assert(key_lt(old_seq[i as int].0, old_seq[j].0));
                    }
                }
                lemma_entries_map_update(old_seq, i as int, k, v);
            }
        } else {
            self.entries.insert(i, (key, value));
            proof {
                assert(self.entry_seq() =~= old_seq.insert(i as int, (k, v)));
                let s = self.entry_seq();
                assert forall|a: int, b: int| 0 <= a < b < s.len() implies key_lt(
                    #[trigger] s[a].0,
                    #[trigger] s[b].0,
                ) by {
                    if a < i && b > i {
                        lemma_key_lt_transitive(s[a].0, k, s[b].0);
                    }
                }
                assert forall|j: int| 0 <= j < old_seq.len() implies #[trigger] old_seq[j].0 != k by {
                    lemma_key_lt_irreflexive(k);
                    if j < i {
                        assert(key_lt(old_seq[j].0, k));
                    } else {
                        assert(key_lt(k, old_seq[j].0));
                    }
                }
                lemma_entries_map_contains(old_seq, k);
                lemma_entries_map_insert(old_seq, i as int, k, v);
            }
        }
    }
}

/// In a sequence with distinct keys, the map sends each key to the value
/// stored beside it.
pub proof fn lemma_entries_map_index<V>(s: Seq<(Seq<char>, V)>)
    requires
        keys_increasing(s),
    ensures
        forall|i: int|
            0 <= i < s.len() ==> #[trigger] entries_map(s).contains_key(s[i].0) && entries_map(
                s,
            )[s[i].0] == s[i].1,
    decreases s.len(),
{
    if s.len() > 0 {
        let t = s.drop_last();
        let n = s.len() - 1;
        assert(keys_increasing(t));
        lemma_entries_map_index(t);
        assert(entries_map(s) == entries_map(t).insert(s[n].0, s[n].1));
        assert forall|i: int| 0 <= i < s.len() implies #[trigger] entries_map(s).contains_key(s[i].0)
            && entries_map(s)[s[i].0] == s[i].1 by {
            if i < n {
                assert(t[i] == s[i]);
                lemma_key_lt_irreflexive(s[i].0);
                assert(key_lt(s[i].0, s[n].0));
                assert(s[i].0 != s[n].0);
            }
        }
    }
}

/// Removing the last entry of a key-increasing sequence removes its key
/// from the map.
proof fn lemma_entries_map_drop_last<V>(s: Seq<(Seq<char>, V)>)
    requires
        keys_increasing(s),
        s.len() > 0,
    ensures
        entries_map(s.drop_last()) == entries_map(s).remove(s.last().0),
{
    let t = s.drop_last();
    let n = s.len() - 1;
    let k = s[n].0;
    lemma_entries_map_contains(t, k);
    if entries_map(t).contains_key(k) {
        let j = choose|j: int| 0 <= j < t.len() && #[trigger] t[j].0 == k;
        assert(s[j].0 == k);
        lemma_key_lt_irreflexive(k);
        assert(key_lt(s[j].0, s[n].0));
    }
    assert(entries_map(s) == entries_map(t).insert(k, s[n].1));
    assert(entries_map(t) =~= entries_map(t).insert(k, s[n].1).remove(k));
}

/// Inserting an entry with a new key anywhere adds that key to the map.
proof fn lemma_entries_map_insert<V>(s: Seq<(Seq<char>, V)>, i: int, k: Seq<char>, v: V)
    requires
        0 <= i <= s.len(),
        forall|j: int| 0 <= j < s.len() ==> #[trigger] s[j].0 != k,
    ensures
        entries_map(s.insert(i, (k, v))) == entries_map(s).insert(k, v),
    decreases s.len(),
{
    let u = s.insert(i, (k, v));
    if i == s.len() {
        assert(u.drop_last() =~= s);
    } else {
        let t = s.drop_last();
        let n = s.len() - 1;
        assert(u.drop_last() =~= t.insert(i, (k, v)));
        assert(u.last() == s[n]);
        lemma_entries_map_insert(t, i, k, v);
        assert(s[n].0 != k);
        assert(entries_map(u) =~= entries_map(s).insert(k, v));
    }
}

/// Overwriting the entry that holds `k` sets `k`'s value in the map.
proof fn lemma_entries_map_update<V>(s: Seq<(Seq<char>, V)>, i: int, k: Seq<char>, v: V)
    requires
        0 <= i < s.len(),
        s[i].0 == k,
        forall|j: int| 0 <= j < s.len() && j != i ==> #[trigger] s[j].0 != k,
    ensures
        entries_map(s.update(i, (k, v))) == entries_map(s).insert(k, v),
    decreases s.len(),
{
    let u = s.update(i, (k, v));
    let t = s.drop_last();
    let n = s.len() - 1;
    if i == n {
        assert(u.drop_last() =~= t);
        assert(entries_map(u) =~= entries_map(s).insert(k, v));
    } else {
        assert(u.drop_last() =~= t.update(i, (k, v)));
        assert(u.last() == s[n]);
        lemma_entries_map_update(t, i, k, v);
        assert(s[n].0 != k);
        assert(entries_map(u) =~= entries_map(s).insert(k, v));
    }
}

/// Two key-sorted entry sequences that describe the same map are equal:
/// the sorted form is canonical.
pub proof fn lemma_sorted_entries_canonical<V>(a: Seq<(Seq<char>, V)>, b: Seq<(Seq<char>, V)>)
    requires
        keys_increasing(a),
        keys_increasing(b),
        entries_map(a) == entries_map(b),
    ensures
        a == b,
    decreases a.len() + b.len(),
{
    lemma_entries_map_index(a);
    lemma_entries_map_index(b);
    if a.len() == 0 || b.len() == 0 {
        if a.len() > 0 {
            assert(entries_map(a).contains_key(a[0].0));
        }
        if b.len() > 0 {
            assert(entries_map(b).contains_key(b[0].0));
        }
        assert(a =~= b);
    } else {
        // the last keys are both the greatest key of the map
        let na = a.len() - 1;
        let nb = b.len() - 1;
        let ka = a[na].0;
        let kb = b[nb].0;
        assert(entries_map(a).contains_key(ka));
        assert(entries_map(b).contains_key(kb));
        lemma_entries_map_contains(b, ka);
        lemma_entries_map_contains(a, kb);
        let ja = choose|j: int| 0 <= j < b.len() && #[trigger] b[j].0 == ka;
        let jb = choose|j: int| 0 <= j < a.len() && #[trigger] a[j].0 == kb;
        if ka != kb {
            lemma_key_lt_total(ka, kb);
            lemma_key_lt_irreflexive(ka);
            lemma_key_lt_irreflexive(kb);
            if key_lt(ka, kb) {
                assert(jb < na);
                assert(key_lt(a[jb].0, a[na].0));
                lemma_key_lt_transitive(kb, ka, kb);
            } else {
                assert(ja < nb);
                assert(key_lt(b[ja].0, b[nb].0));
                lemma_key_lt_transitive(ka, kb, ka);
            }
        }
        assert(a[na].1 == entries_map(a)[ka]);
        assert(b[nb].1 == entries_map(b)[kb]);
        assert(a[na] == b[nb]);
        lemma_entries_map_drop_last(a);
        lemma_entries_map_drop_last(b);
        assert(keys_increasing(a.drop_last()));
        assert(keys_increasing(b.drop_last()));
        lemma_sorted_entries_canonical(a.drop_last(), b.drop_last());
        assert(a =~= a.drop_last().push(a[na]));
        assert(b =~= b.drop_last().push(b[nb]));
    }
}

/// Non-strict order on string keys.
pub open spec fn key_le(a: Seq<char>, b: Seq<char>) -> bool {
    a == b || key_lt(a, b)
}

/// `key_le` as a relation value.
pub open spec fn key_le_rel() -> spec_fn(Seq<char>, Seq<char>) -> bool {
    |a: Seq<char>, b: Seq<char>| key_le(a, b)
}

/// A list of strings in byte order, duplicates kept.
pub open spec fn sorted_strings(s: Seq<Seq<char>>) -> Seq<Seq<char>> {
    s.sort_by(key_le_rel())
}

/// The views of a vector of strings.
pub open spec fn string_views(v: Seq<String>) -> Seq<Seq<char>> {
    v.map_values(|s: String| s@)
}

pub proof fn lemma_key_le_total_ordering()
    ensures
        total_ordering(key_le_rel()),
{
    let r = key_le_rel();
    assert forall|a: Seq<char>| #[trigger] r(a, a) by {}
    assert forall|a: Seq<char>, b: Seq<char>| #[trigger] r(a, b) && #[trigger] r(b, a) implies a == b by {
        if a != b {
            lemma_key_lt_transitive(a, b, a);
            lemma_key_lt_irreflexive(a);
        }
    }
    assert forall|a: Seq<char>, b: Seq<char>, c: Seq<char>| #[trigger] r(a, b) && #[trigger] r(b, c) implies r(a, c) by {
        if a != b && b != c {
            lemma_key_lt_transitive(a, b, c);
        }
    }
    assert forall|a: Seq<char>, b: Seq<char>| #[trigger] r(a, b) || #[trigger] r(b, a) by {
        if a != b {
            lemma_key_lt_total(a, b);
        }
    }
    assert(reflexive(r));
    assert(antisymmetric(r));
    assert(transitive(r));
    assert(strongly_connected(r));
}

/// A copy of `v` sorted into byte order, duplicates kept (as
/// `Vec::<String>::sort` orders them).
pub fn sort_strings(v: &Vec<String>) -> (r: Vec<String>)
    ensures
        string_views(r@) == sorted_strings(string_views(v@)),
{
    broadcast use vstd::seq_lib::group_to_multiset_ensures;
    let mut r: Vec<String> = Vec::new();
    let n = v.len();
    let mut i: usize = 0;
    let ghost rel = key_le_rel();
    proof {
        lemma_key_le_total_ordering();
    }
    while i < n
        invariant
            n == v@.len(),
            i <= n,
            rel == key_le_rel(),
            total_ordering(rel),
            sorted_by(string_views(r@), rel),
            string_views(r@).to_multiset() == string_views(v@).subrange(0, i as int).to_multiset(),
        decreases n - i,
    {
        let e = v[i].clone();
        let m = r.len();
        let mut p: usize = 0;
        while p < m
            invariant
                m == r@.len(),
                p <= m,
                forall|q: int| 0 <= q < p ==> key_le(#[trigger] string_views(r@)[q], e@),
            ensures
                p <= m,
                forall|q: int| 0 <= q < p ==> key_le(#[trigger] string_views(r@)[q], e@),
                p < m ==> key_lt(e@, string_views(r@)[p as int]),
            decreases m - p,
        {
            let c = compare_keys(r[p].as_str(), e.as_str());
            proof {
                assert(string_views(r@)[p as int] == r@[p as int]@);
            }
            if c == KeyOrder::Greater {
                break;
            }
            p += 1;
        }
        let ghost old_views = string_views(r@);
        r.insert(p, e);
        proof {
            assert(string_views(r@) =~= old_views.insert(p as int, v@[i as int]@));
            let nv = string_views(r@);
            assert(p < m ==> key_lt(e@, old_views[p as int]));
            assert forall|a: int, b: int| 0 <= a < b < nv.len() implies #[trigger] rel(nv[a], nv[b]) by {
                if a <= p && b > p {
                    assert(key_lt(e@, old_views[p as int]));
                    if b - 1 > p {
                        assert(rel(old_views[p as int], old_views[b - 1]));
                        if old_views[p as int] != old_views[b - 1] {
                            lemma_key_lt_transitive(e@, old_views[p as int], old_views[b - 1]);
                        }
                    }
                    assert(key_le(e@, old_views[b - 1]));
                    if a < p {
                        assert(key_le(old_views[a], e@));
                        if old_views[a] != e@ {
                            lemma_key_lt_transitive(old_views[a], e@, old_views[b - 1]);
                        }
                    }
                } else if a < p && b == p {
                    assert(key_le(old_views[a], e@));
                } else if a < p {
                    assert(rel(old_views[a], old_views[b]));
                } else {
                    assert(rel(old_views[a - 1], old_views[b - 1]));
                }
            }
            assert(string_views(v@).subrange(0, i + 1) =~= string_views(v@).subrange(0, i as int).push(
                v@[i as int]@,
            ));
            vstd::seq_lib::to_multiset_insert(old_views, p as int, v@[i as int]@);
            vstd::seq_lib::to_multiset_build(string_views(v@).subrange(0, i as int), v@[i as int]@);
        }
        i += 1;
    }
    proof {
        assert(string_views(v@).subrange(0, n as int) =~= string_views(v@));
        string_views(v@).lemma_sort_by_ensures(rel);
        vstd::seq_lib::lemma_sorted_unique(string_views(r@), sorted_strings(string_views(v@)), rel);
    }
    r
}

} // verus!

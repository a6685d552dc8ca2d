//! `StrMap`: a string-keyed association table that keeps its entries in
//! insertion order. A key's value is the one held by its last entry.
use vstd::prelude::*;
use crate::text::same_text;

verus! {

/// The map that a sequence of entries denotes: later entries override
/// earlier ones with the same key.
pub open spec fn map_of<V>(pairs: Seq<(Seq<char>, V)>) -> Map<Seq<char>, V>
    decreases pairs.len(),
{
    if pairs.len() == 0 {
        Map::empty()
    } else {
        map_of(pairs.drop_last()).insert(pairs.last().0, pairs.last().1)
    }
}

/// Index of the last entry whose key is `k`, or -1 when there is none.
pub open spec fn last_index_of<V>(pairs: Seq<(Seq<char>, V)>, k: Seq<char>) -> int
    decreases pairs.len(),
{
    if pairs.len() == 0 {
        -1
    } else if pairs.last().0 == k {
        pairs.len() - 1
    } else {
        last_index_of(pairs.drop_last(), k)
    }
}

/// The entries after inserting `(k, v)`: the last entry with key `k` takes the
/// new value in place, or the pair is appended when `k` is new.
pub open spec fn inserted<V>(pairs: Seq<(Seq<char>, V)>, k: Seq<char>, v: V) -> Seq<(Seq<char>, V)> {
    let i = last_index_of(pairs, k);
    if i >= 0 {
        pairs.update(i, (k, v))
    } else {
        pairs.push((k, v))
    }
}

/// The entries whose key differs from `k`, in their order.
pub open spec fn without_key<V>(pairs: Seq<(Seq<char>, V)>, k: Seq<char>) -> Seq<(Seq<char>, V)> {
    pairs.filter(|e: (Seq<char>, V)| e.0 != k)
}

pub proof fn lemma_last_index_of<V>(pairs: Seq<(Seq<char>, V)>, k: Seq<char>)
    ensures
        -1 <= last_index_of(pairs, k) < pairs.len(),
        last_index_of(pairs, k) >= 0 ==> pairs[last_index_of(pairs, k)].0 == k,
        forall|j: int| last_index_of(pairs, k) < j < pairs.len() ==> #[trigger] pairs[j].0 != k,
        map_of(pairs).dom().contains(k) <==> last_index_of(pairs, k) >= 0,
        last_index_of(pairs, k) >= 0 ==> map_of(pairs)[k] == pairs[last_index_of(pairs, k)].1,
    decreases pairs.len(),
{
    if pairs.len() > 0 {
        lemma_last_index_of(pairs.drop_last(), k);
        if pairs.last().0 != k {
            assert forall|j: int| last_index_of(pairs, k) < j < pairs.len() implies #[trigger] pairs[j].0 != k by {
                if j < pairs.len() - 1 {
                    assert(pairs.drop_last()[j] == pairs[j]);
                }
            }
        }
    }
}

/// Some entry carries key `k` exactly when the map has `k`.
pub proof fn lemma_map_of_dom<V>(pairs: Seq<(Seq<char>, V)>, k: Seq<char>)
    ensures
        map_of(pairs).dom().contains(k) <==> exists|i: int| 0 <= i < pairs.len() && pairs[i].0 == k,
{
    lemma_last_index_of(pairs, k);
    if map_of(pairs).dom().contains(k) {
        let i = last_index_of(pairs, k);
        assert(pairs[i].0 == k);
    }
}

proof fn lemma_update_last<V>(pairs: Seq<(Seq<char>, V)>, k: Seq<char>, v: V)
    requires
        last_index_of(pairs, k) >= 0,
    ensures
        map_of(pairs.update(last_index_of(pairs, k), (k, v))) =~= map_of(pairs).insert(k, v),
    decreases pairs.len(),
{
    lemma_last_index_of(pairs, k);
    let i = last_index_of(pairs, k);
    let p2 = pairs.update(i, (k, v));
    if i == pairs.len() - 1 {
        assert(p2.drop_last() =~= pairs.drop_last());
    } else {
        assert(pairs.last().0 != k);
        assert(last_index_of(pairs.drop_last(), k) == i);
        lemma_update_last(pairs.drop_last(), k, v);
        assert(p2.drop_last() =~= pairs.drop_last().update(i, (k, v)));
        assert(p2.last() == pairs.last());
    }
}

proof fn lemma_without_key<V>(pairs: Seq<(Seq<char>, V)>, k: Seq<char>)
    ensures
        map_of(without_key(pairs, k)) =~= map_of(pairs).remove(k),
    decreases pairs.len(),
{
    reveal_with_fuel(Seq::filter, 1);
    if pairs.len() > 0 {
        lemma_without_key(pairs.drop_last(), k);
        let sub = without_key(pairs.drop_last(), k);
        if pairs.last().0 != k {
            assert(without_key(pairs, k) == sub.push(pairs.last()));
            assert(sub.push(pairs.last()).drop_last() =~= sub);
            assert(map_of(without_key(pairs, k)) =~= map_of(pairs).remove(k));
        } else {
            assert(without_key(pairs, k) == sub);
            assert(map_of(without_key(pairs, k)) =~= map_of(pairs).remove(k));
        }
    }
}

/// No two entries share a key.
pub open spec fn distinct_keys<V>(pairs: Seq<(Seq<char>, V)>) -> bool {
    forall|i: int, j: int| 0 <= i < j < pairs.len() ==> #[trigger] pairs[i].0 != #[trigger] pairs[j].0
}

/// A string-keyed table; entries keep the order in which keys first arrived.
#[derive(Clone, Debug)]
pub struct StrMap<V> {
    entries: Vec<(String, V)>,
}

impl<V> StrMap<V> {
    /// The entries in storage order, each key taken by its characters.
    pub closed spec fn pairs(self) -> Seq<(Seq<char>, V)> {
        self.entries@.map_values(|e: (String, V)| (e.0@, e.1))
    }

    /// The key-to-value map the entries denote.
    pub open spec fn view(self) -> Map<Seq<char>, V> {
        map_of(self.pairs())
    }

    /// An empty table.
    pub fn new() -> (m: Self)
        ensures
            m.pairs() == Seq::<(Seq<char>, V)>::empty(),
            distinct_keys(m.pairs()),
            m@ == Map::<Seq<char>, V>::empty(),
    {
        let m = StrMap { entries: Vec::new() };
        assert(m.pairs() =~= Seq::<(Seq<char>, V)>::empty());
        m
    }

    /// Number of entries.
    pub fn len(&self) -> (n: usize)
        ensures
            n == self.pairs().len(),
    {
        self.entries.len()
    }

    /// The key of entry `i`.
    pub fn key_at(&self, i: usize) -> (k: &String)
        requires
            i < self.pairs().len(),
        ensures
            k@ == self.pairs()[i as int].0,
    {
        &self.entries[i].0
    }

    /// The value of entry `i`.
    pub fn value_at(&self, i: usize) -> (v: &V)
        requires
            i < self.pairs().len(),
        ensures
            *v == self.pairs()[i as int].1,
    {
        &self.entries[i].1
    }

    /// Position of the entry holding `key`, if any.
    pub fn find(&self, key: &str) -> (r: Option<usize>)
        ensures
            match r {
                Some(i) => i < self.pairs().len() && self.pairs()[i as int].0 == key@ && i
                    == last_index_of(self.pairs(), key@),
                None => last_index_of(self.pairs(), key@) == -1,
            },
            r is Some <==> self@.dom().contains(key@),
    {
        proof {
            lemma_last_index_of(self.pairs(), key@);
        }
        let mut i = self.entries.len();
        while i > 0
            invariant
                i <= self.entries.len(),
                forall|j: int| i <= j < self.pairs().len() ==> #[trigger] self.pairs()[j].0 != key@,
            decreases i,
        {
            i -= 1;
            if same_text(self.entries[i].0.as_str(), key) {
                assert(self.pairs()[i as int].0 == key@);
                proof {
                    lemma_last_index_of(self.pairs(), key@);
                }
                return Some(i);
            }
        }
        None
    }

    /// The value bound to `key`.
    pub fn get(&self, key: &str) -> (r: Option<&V>)
        ensures
            match r {
                Some(v) => self@.dom().contains(key@) && *v == self@[key@],
                None => !self@.dom().contains(key@),
            },
    {
        proof {
            lemma_last_index_of(self.pairs(), key@);
        }
        match self.find(key) {
            Some(i) => Some(&self.entries[i].1),
            None => None,
        }
    }

    /// Whether `key` is bound.
    pub fn contains_key(&self, key: &str) -> (b: bool)
        ensures
            b == self@.dom().contains(key@),
    {
        self.find(key).is_some()
    }

    /// Binds `key` to `value`, in place when the key is already present.
    pub fn insert(&mut self, key: String, value: V)
        ensures
            final(self).pairs() == inserted(old(self).pairs(), key@, value),
            final(self)@ == old(self)@.insert(key@, value),
            distinct_keys(old(self).pairs()) ==> distinct_keys(final(self).pairs()),
    {
        proof {
            lemma_last_index_of(self.pairs(), key@);
        }
        let ghost k = key@;
        match self.find(key.as_str()) {
            Some(i) => {
                let _ = self.entries.remove(i);
                self.entries.insert(i, (key, value));
                proof {
                    assert(self.pairs() =~= old(self).pairs().update(i as int, (k, value)));
                    lemma_update_last(old(self).pairs(), k, value);
                    if distinct_keys(old(self).pairs()) {
                        assert forall|a: int, b: int| 0 <= a < b < self.pairs().len() implies #[trigger] self.pairs()[a].0
                            != #[trigger] self.pairs()[b].0 by {
                            assert(old(self).pairs()[a].0 == self.pairs()[a].0);
                            assert(old(self).pairs()[b].0 == self.pairs()[b].0);
                        }
                    }
                }
            },
            None => {
                self.entries.push((key, value));
                proof {
                    assert(self.pairs() =~= old(self).pairs().push((k, value)));
                    assert(self.pairs().drop_last() =~= old(self).pairs());
                    if distinct_keys(old(self).pairs()) {
                        assert forall|a: int, b: int| 0 <= a < b < self.pairs().len() implies #[trigger] self.pairs()[a].0
                            != #[trigger] self.pairs()[b].0 by {
                            if b == self.pairs().len() - 1 {
                                lemma_map_of_dom(old(self).pairs(), k);
                                assert(old(self).pairs()[a].0 == self.pairs()[a].0);
                            } else {
                                assert(old(self).pairs()[a] == self.pairs()[a]);
                                assert(old(self).pairs()[b] == self.pairs()[b]);
                            }
                        }
                    }
                }
            },
        }
    }

    /// Replaces the value of entry `i`, returning the previous one.
    pub fn replace_at(&mut self, i: usize, value: V) -> (prev: V)
        requires
            i < old(self).pairs().len(),
        ensures
            prev == old(self).pairs()[i as int].1,
            final(self).pairs() == old(self).pairs().update(i as int, (old(self).pairs()[i as int].0, value)),
            i == last_index_of(old(self).pairs(), old(self).pairs()[i as int].0) ==> final(self)@
                == old(self)@.insert(old(self).pairs()[i as int].0, value),
    {
        let (k, prev) = self.entries.remove(i);
        self.entries.insert(i, (k, value));
        let ghost key = old(self).pairs()[i as int].0;
        assert(self.pairs() =~= old(self).pairs().update(i as int, (key, value)));
        proof {
            if i == last_index_of(old(self).pairs(), key) {
                lemma_update_last(old(self).pairs(), key, value);
            }
        }
        prev
    }

    /// The values, in entry order.
    pub fn into_values(self) -> (v: Vec<V>)
        ensures
            v@ == self.pairs().map_values(|e: (Seq<char>, V)| e.1),
    {
        let mut entries = self.entries;
        let ghost all = entries@;
        let mut v: Vec<V> = Vec::new();
        let n = entries.len();
        let mut i: usize = 0;
        while i < n
            invariant
                n == all.len(),
                i <= n,
                entries@ == all.subrange(i as int, n as int),
                v@ == all.take(i as int).map_values(|e: (String, V)| e.1),
            decreases n - i,
        {
            let e = entries.remove(0);
            assert(e == all[i as int]);
            v.push(e.1);
            i += 1;
            assert(all.take(i as int).map_values(|e: (String, V)| e.1) =~= all.take(i - 1).map_values(
                |e: (String, V)| e.1,
            ).push(all[i - 1].1));
        }
        assert(all.take(n as int) =~= all);
        assert(v@ =~= self.pairs().map_values(|e: (Seq<char>, V)| e.1));
        v
    }

    /// Unbinds `key`, returning its value.
    pub fn remove(&mut self, key: &str) -> (r: Option<V>)
        ensures
            final(self).pairs() == without_key(old(self).pairs(), key@),
            final(self)@ == old(self)@.remove(key@),
            match r {
                Some(v) => old(self)@.dom().contains(key@) && v == old(self)@[key@],
                None => !old(self)@.dom().contains(key@),
            },
    {
        proof {
            lemma_last_index_of(self.pairs(), key@);
            lemma_without_key(self.pairs(), key@);
        }
        let ghost old_pairs = self.pairs();
        let last = self.find(key);
        let mut kept: Vec<(String, V)> = Vec::new();
        let mut found: Option<V> = None;
        let mut old_entries: Vec<(String, V)> = Vec::new();
        std::mem::swap(&mut old_entries, &mut self.entries);
        let ghost all = old_entries@;
        assert(old_pairs == all.map_values(|e: (String, V)| (e.0@, e.1)));
        let mut i: usize = 0;
        let n = old_entries.len();
        while i < n
            invariant
                n == all.len(),
                i <= n,
                old_entries@ == all.subrange(i as int, n as int),
                kept@.map_values(|e: (String, V)| (e.0@, e.1)) == without_key(
                    old_pairs.take(i as int),
                    key@,
                ),
                old_pairs == all.map_values(|e: (String, V)| (e.0@, e.1)),
                match last {
                    Some(li) => li < n && old_pairs[li as int].0 == key@ && (i > li ==> found == Some(
                        all[li as int].1,
                    )),
                    None => found is None,
                },
                found is Some ==> last is Some,
            decreases n - i,
        {
            proof {
                reveal_with_fuel(Seq::filter, 1);
            }
            let e = old_entries.remove(0);
            assert(e == all[i as int]);
            assert(old_pairs.take(i + 1).drop_last() =~= old_pairs.take(i as int));
            if same_text(e.0.as_str(), key) {
                if last == Some(i) {
                    found = Some(e.1);
                }
            } else {
                kept.push(e);
            }
            i += 1;
            assert(kept@.map_values(|e: (String, V)| (e.0@, e.1)) =~= without_key(
                old_pairs.take(i as int),
                key@,
            ));
        }
        assert(old_pairs.take(n as int) =~= old_pairs);
        self.entries = kept;
        found
    }
}

impl<V: View> StrMap<V> {
    /// The key-to-value map with each value taken by its view.
    pub open spec fn vmap(self) -> Map<Seq<char>, V::V> {
        self@.map_values(|v: V| v@)
    }
}

/// Extending a sequence by one element extends what a filter-and-map of it
/// gives by that element's image, when the element passes the filter.
pub proof fn lemma_filter_map_step<A, B>(s: Seq<A>, i: int, keep: spec_fn(A) -> bool, f: spec_fn(A) -> B)
    requires
        0 <= i < s.len(),
    ensures
        s.take(i + 1).filter(keep).map_values(f) == if keep(s[i]) {
            s.take(i).filter(keep).map_values(f).push(f(s[i]))
        } else {
            s.take(i).filter(keep).map_values(f)
        },
{
    assert(s.take(i + 1) =~= s.take(i).push(s[i]));
    s.take(i).lemma_filter_push(s[i], keep);
    let kept = s.take(i).filter(keep);
    assert(kept.push(s[i]).map_values(f) =~= kept.map_values(f).push(f(s[i])));
}

/// Two entry sequences hold the same keys in the same order.
pub open spec fn same_key_order<V, W>(a: Seq<(Seq<char>, V)>, b: Seq<(Seq<char>, W)>) -> bool {
    a.len() == b.len() && forall|i: int| 0 <= i < a.len() ==> #[trigger] a[i].0 == b[i].0
}

} // verus!

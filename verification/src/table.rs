//! A table keyed by text, kept in ascending key order with each key once: the
//! order in which a `BTreeMap<String, _>` walks its keys.
use vstd::prelude::*;
use crate::text::{lex_lt, precedes, same_text, lemma_lex_irreflexive, lemma_lex_transitive, lemma_lex_total, lemma_lex_asymmetric};

verus! {

/// The keys of a sequence of entries stand in strictly ascending order.
pub open spec fn keys_ascending<V>(s: Seq<(Seq<char>, V)>) -> bool {
    forall|i: int, j: int| 0 <= i < j < s.len() ==> lex_lt(#[trigger] s[i].0, #[trigger] s[j].0)
}

/// The value stored under `k`: that of the last entry with this key.
pub open spec fn lookup<V>(s: Seq<(Seq<char>, V)>, k: Seq<char>) -> Option<V>
    decreases s.len(),
{
    if s.len() == 0 {
        None
    } else if s.last().0 == k {
        Some(s.last().1)
    } else {
        lookup(s.drop_last(), k)
    }
}

/// Some entry has key `k`.
pub open spec fn has_key<V>(s: Seq<(Seq<char>, V)>, k: Seq<char>) -> bool {
    exists|i: int| 0 <= i < s.len() && #[trigger] s[i].0 == k
}

/// In a table with ascending keys, the lookup of an entry's key gives its value.
pub proof fn lemma_lookup_at<V>(s: Seq<(Seq<char>, V)>, i: int)
    requires
        keys_ascending(s),
        0 <= i < s.len(),
    ensures
        lookup(s, s[i].0) == Some(s[i].1),
    decreases s.len(),
{
    if i < s.len() - 1 {
        let init = s.drop_last();
        assert(lex_lt(s[i].0, s[s.len() - 1].0));
        lemma_lex_irreflexive(s[i].0);
        assert(keys_ascending(init));
        lemma_lookup_at(init, i);
    }
}

/// Lookup finds something exactly when some entry has the key.
pub proof fn lemma_lookup_some<V>(s: Seq<(Seq<char>, V)>, k: Seq<char>)
    ensures
        lookup(s, k) is Some <==> has_key(s, k),
    decreases s.len(),
{
    if s.len() > 0 {
        let init = s.drop_last();
        lemma_lookup_some(init, k);
        if has_key(s, k) && s.last().0 != k {
            let i = choose|i: int| 0 <= i < s.len() && #[trigger] s[i].0 == k;
            assert(init[i].0 == k);
        }
        if has_key(init, k) {
            let i = choose|i: int| 0 <= i < init.len() && #[trigger] init[i].0 == k;
            assert(s[i].0 == k);
        }
        if s.last().0 == k {
            assert(s[s.len() - 1].0 == k);
        }
    }
}

/// The entries of a table, keys taken as text.
pub open spec fn keyed_view<V>(entries: Seq<(String, V)>) -> Seq<(Seq<char>, V)> {
    entries.map_values(|e: (String, V)| (e.0@, e.1))
}

/// A table keyed by text in ascending key order, each key once.
pub struct SortedTable<V> {
    entries: Vec<(String, V)>,
}

impl<V> View for SortedTable<V> {
    type V = Seq<(Seq<char>, V)>;

    closed spec fn view(&self) -> Seq<(Seq<char>, V)> {
        keyed_view(self.entries@)
    }
}

impl<V> SortedTable<V> {
    #[verifier::type_invariant]
    closed spec fn ascending(self) -> bool {
        keys_ascending(self@)
    }

    /// An empty table.
    pub fn new() -> (t: Self)
        ensures
            t@ == Seq::<(Seq<char>, V)>::empty(),
    {
        let t = SortedTable { entries: Vec::new() };
        assert(t@ =~= Seq::<(Seq<char>, V)>::empty());
        t
    }

    /// The number of entries.
    pub fn len(&self) -> (n: usize)
        ensures
            n == self@.len(),
            keys_ascending(self@),
    {
        proof {
            use_type_invariant(self);
        }
        self.entries.len()
    }

    /// The key of the `i`-th entry.
    pub fn key(&self, i: usize) -> (k: &String)
        requires
            i < self@.len(),
        ensures
            k@ == self@[i as int].0,
    {
        &self.entries[i].0
    }

    /// The value of the `i`-th entry.
    pub fn value(&self, i: usize) -> (v: &V)
        requires
            i < self@.len(),
        ensures
            *v == self@[i as int].1,
    {
        &self.entries[i].1
    }

    /// Whether some entry has the key `k`.
    pub fn contains_key(&self, k: &str) -> (r: bool)
        ensures
            r == has_key(self@, k@),
    {
        let mut i: usize = 0;
        while i < self.entries.len()
            invariant
                i <= self.entries.len(),
                self@.len() == self.entries@.len(),
                forall|j: int| 0 <= j < self@.len() ==> #[trigger] self@[j] == (self.entries@[j].0@, self.entries@[j].1),
                forall|j: int| 0 <= j < i ==> #[trigger] self@[j].0 != k@,
            decreases self.entries.len() - i,
        {
            if same_text(self.entries[i].0.as_str(), k) {
                assert(self@[i as int].0 == k@);
                return true;
            }
            i = i + 1;
        }
        false
    }

    /// Stores `value` under `key`: an entry with that key has its value
    /// replaced, otherwise a new entry takes its place in key order.
    pub fn insert(&mut self, key: String, value: V)
        ensures
            keys_ascending(final(self)@),
            forall|k: Seq<char>| #[trigger] lookup(final(self)@, k) == if k == key@ {
                Some(value)
            } else {
                lookup(old(self)@, k)
            },
    {
        proof {
            use_type_invariant(&*self);
        }
        let mut entries: Vec<(String, V)> = Vec::new();
        std::mem::swap(&mut entries, &mut self.entries);
        let ghost old_view = keyed_view(entries@);
        let mut j: usize = 0;
        while j < entries.len() && precedes(entries[j].0.as_str(), key.as_str())
            invariant
                j <= entries.len(),
                                keys_ascending(old_view),
                old_view.len() == entries@.len(),
                forall|m: int| 0 <= m < old_view.len() ==> #[trigger] old_view[m] == (entries@[m].0@, entries@[m].1),
                forall|m: int| 0 <= m < j ==> lex_lt(#[trigger] old_view[m].0, key@),
            decreases entries.len() - j,
        {
            j = j + 1;
        }
        let replace = j < entries.len() && same_text(entries[j].0.as_str(), key.as_str());
        let ghost kv = key@;
        if replace {
            let _ = entries.remove(j);
        }
        entries.insert(j, (key, value));
        let ghost new_view = keyed_view(entries@);
        proof {
            // after position j every old key is beyond the new key
            assert forall|m: int| j <= m < old_view.len() && old_view[m].0 != kv implies lex_lt(
                kv,
                #[trigger] old_view[m].0,
            ) by {
                assert(!lex_lt(old_view[j as int].0, kv));
                if old_view[j as int].0 == kv {
                    if m > j {
                        assert(lex_lt(old_view[j as int].0, old_view[m].0));
                    }
                } else {
                    lemma_lex_total(old_view[j as int].0, kv);
                    if m > j {
                        lemma_lex_transitive(kv, old_view[j as int].0, old_view[m].0);
                    }
                }
            }
            if replace {
                assert(new_view =~= old_view.update(j as int, (kv, value)));
                assert forall|a: int, b: int| 0 <= a < b < new_view.len() implies lex_lt(
                    #[trigger] new_view[a].0,
                    #[trigger] new_view[b].0,
                ) by {
                    if a == j {
                        assert(old_view[b].0 != kv) by {
                            assert(lex_lt(old_view[j as int].0, old_view[b].0));
                            lemma_lex_irreflexive(kv);
                        }
                    } else if b == j {
                        assert(lex_lt(old_view[a].0, kv));
                    } else {
                        assert(new_view[a] == old_view[a]);
                        assert(new_view[b] == old_view[b]);
                    }
                }
                assert forall|k: Seq<char>| #[trigger] lookup(new_view, k) == if k == kv {
                    Some(value)
                } else {
                    lookup(old_view, k)
                } by {
                    lemma_lookup_some(new_view, k);
                    lemma_lookup_some(old_view, k);
                    if k == kv {
                        lemma_lookup_at(new_view, j as int);
                    } else if has_key(old_view, k) {
                        let m = choose|m: int| 0 <= m < old_view.len() && #[trigger] old_view[m].0 == k;
                        lemma_lookup_at(old_view, m);
                        assert(new_view[m] == old_view[m]);
                        lemma_lookup_at(new_view, m);
                    } else {
                        if has_key(new_view, k) {
                            let m = choose|m: int| 0 <= m < new_view.len() && #[trigger] new_view[m].0 == k;
                            assert(old_view[m].0 == k);
                        }
                    }
                }
            } else {
                assert(new_view =~= old_view.insert(j as int, (kv, value)));
                assert forall|m: int| j <= m < old_view.len() implies lex_lt(
                    kv,
                    #[trigger] old_view[m].0,
                ) by {
                    if m == j {
                        assert(old_view[j as int].0 != kv);
                    } else {
                        assert(lex_lt(old_view[j as int].0, old_view[m].0));
                        if old_view[m].0 == kv {
                            lemma_lex_asymmetric(old_view[j as int].0, old_view[m].0);
                            lemma_lex_total(old_view[j as int].0, kv);
                        }
                    }
                }
                assert forall|a: int, b: int| 0 <= a < b < new_view.len() implies lex_lt(
                    #[trigger] new_view[a].0,
                    #[trigger] new_view[b].0,
                ) by {
                    if a < j && b < j {
                        assert(new_view[a] == old_view[a] && new_view[b] == old_view[b]);
                    } else if a < j && b == j {
                    } else if a < j {
                        assert(new_view[b] == old_view[b - 1]);
                        assert(lex_lt(old_view[a].0, old_view[b - 1].0));
                    } else if a == j {
                        assert(new_view[b] == old_view[b - 1]);
                    } else {
                        assert(new_view[a] == old_view[a - 1] && new_view[b] == old_view[b - 1]);
                    }
                }
                assert forall|k: Seq<char>| #[trigger] lookup(new_view, k) == if k == kv {
                    Some(value)
                } else {
                    lookup(old_view, k)
                } by {
                    lemma_lookup_some(new_view, k);
                    lemma_lookup_some(old_view, k);
                    if k == kv {
                        lemma_lookup_at(new_view, j as int);
                    } else if has_key(old_view, k) {
                        let m = choose|m: int| 0 <= m < old_view.len() && #[trigger] old_view[m].0 == k;
                        lemma_lookup_at(old_view, m);
                        let n = if m < j { m } else { m + 1 };
                        assert(new_view[n] == old_view[m]);
                        lemma_lookup_at(new_view, n);
                    } else {
                        if has_key(new_view, k) {
                            let m = choose|m: int| 0 <= m < new_view.len() && #[trigger] new_view[m].0 == k;
                            if m < j {
                                assert(old_view[m].0 == k);
                            } else if m > j {
                                assert(old_view[m - 1].0 == k);
                            }
                        }
                    }
                }
            }
        }
        self.entries = entries;
    }
}

} // verus!

//! The store: a mutable mapping from string keys to string values.
//!
//! The abstract state of a [`KvStore`] is a finite `Map<Seq<char>, Seq<char>>`
//! (its view); `set`, `get` and `remove` are specified as `insert`, lookup and
//! `remove` on that map. Absence of a key is a normal result (`None`), never
//! an error.

use vstd::prelude::*;

verus! {

/// What a lookup of key `k` in mapping `m` yields: the associated value, or
/// `None` when `k` is absent.
pub open spec fn spec_get(m: Map<Seq<char>, Seq<char>>, k: Seq<char>) -> Option<Seq<char>> {
    if m.contains_key(k) {
        Some(m[k])
    } else {
        None
    }
}

/// No two entries share a key.
pub open spec fn keys_distinct(s: Seq<(String, String)>) -> bool {
    forall|i: int, j: int|
        0 <= i < j < s.len() ==> #[trigger] s[i].0@ != #[trigger] s[j].0@
}

/// Some entry of `s` has key `k`.
pub open spec fn has_key(s: Seq<(String, String)>, k: Seq<char>) -> bool {
    exists|i: int| 0 <= i < s.len() && #[trigger] s[i].0@ == k
}

/// The index of the entry of `s` whose key is `k` (meaningful when `has_key`
/// holds and keys are distinct).
pub open spec fn index_of(s: Seq<(String, String)>, k: Seq<char>) -> int {
    choose|i: int| 0 <= i < s.len() && #[trigger] s[i].0@ == k
}

/// The mapping that a sequence of entries denotes.
pub open spec fn map_of(s: Seq<(String, String)>) -> Map<Seq<char>, Seq<char>> {
    Map::new(|k: Seq<char>| has_key(s, k), |k: Seq<char>| s[index_of(s, k)].1@)
}

/// An in-memory key-value store. Keys and values are UTF-8 strings; keys are
/// unique within the store. Created empty; mutated in place by `set` and
/// `remove`; holds no resource beyond its own memory.
pub struct KvStore {
    entries: Vec<(String, String)>,
}

impl KvStore {
    #[verifier::type_invariant]
    spec fn wf(self) -> bool {
        keys_distinct(self.entries@)
    }
}

impl View for KvStore {
    type V = Map<Seq<char>, Seq<char>>;

    closed spec fn view(&self) -> Map<Seq<char>, Seq<char>> {
        map_of(self.entries@)
    }
}

impl KvStore {
    /// Create an empty store: its mapping contains no key.
    pub fn new() -> (r: KvStore)
        ensures
            r@ == Map::<Seq<char>, Seq<char>>::empty(),
    {
        let r = KvStore { entries: Vec::new() };
        proof {
            assert(r@ =~= Map::<Seq<char>, Seq<char>>::empty());
        }
        r
    }
}

/// With distinct keys, any entry whose key is `k` is the one that `map_of`
/// reads: the mapping contains `k` and maps it to that entry's value.
proof fn lemma_found(s: Seq<(String, String)>, i: int, k: Seq<char>)
    requires
        keys_distinct(s),
        0 <= i < s.len(),
        s[i].0@ == k,
    ensures
        map_of(s).contains_key(k),
        map_of(s)[k] == s[i].1@,
{
    assert(has_key(s, k));
    let j = index_of(s, k);
    assert(0 <= j < s.len() && s[j].0@ == k);
    if i < j {
        assert(s[i].0@ != s[j].0@);
    } else if j < i {
        assert(s[j].0@ != s[i].0@);
    }
}

/// Removing the entry at `i` removes exactly its key from the mapping and
/// keeps the remaining keys distinct.
proof fn lemma_remove_at(s: Seq<(String, String)>, i: int)
    requires
        keys_distinct(s),
        0 <= i < s.len(),
    ensures
        keys_distinct(s.remove(i)),
        !has_key(s.remove(i), s[i].0@),
        map_of(s.remove(i)) == map_of(s).remove(s[i].0@),
{
    let t = s.remove(i);
    let k = s[i].0@;
    assert(forall|j: int| 0 <= j < i ==> t[j] == s[j]);
    assert(forall|j: int| i <= j < t.len() ==> t[j] == s[j + 1]);
    assert forall|a: int, b: int| 0 <= a < b < t.len() implies #[trigger] t[a].0@
        != #[trigger] t[b].0@ by {
        let a0 = if a < i { a } else { a + 1 };
        let b0 = if b < i { b } else { b + 1 };
        assert(s[a0].0@ != s[b0].0@);
    }
    assert forall|j: int| 0 <= j < t.len() implies #[trigger] t[j].0@ != k by {
        let j0 = if j < i { j } else { j + 1 };
        if j0 < i {
            assert(s[j0].0@ != s[i].0@);
        } else {
            assert(s[i].0@ != s[j0].0@);
        }
    }
    assert forall|k2: Seq<char>| true implies #[trigger] has_key(t, k2) == (k2 != k && has_key(
        s,
        k2,
    )) by {
        if has_key(t, k2) {
            let j = choose|j: int| 0 <= j < t.len() && #[trigger] t[j].0@ == k2;
            let j0 = if j < i { j } else { j + 1 };
            assert(s[j0].0@ == k2);
            assert(has_key(s, k2));
        }
        if k2 != k && has_key(s, k2) {
            let j0 = choose|j0: int| 0 <= j0 < s.len() && #[trigger] s[j0].0@ == k2;
            let j = if j0 < i { j0 } else { j0 - 1 };
            assert(t[j].0@ == k2);
            assert(has_key(t, k2));
        }
    }
    assert forall|k2: Seq<char>| has_key(t, k2) implies #[trigger] map_of(t)[k2] == map_of(s)[k2] by {
        let j = choose|j: int| 0 <= j < t.len() && #[trigger] t[j].0@ == k2;
        let j0 = if j < i { j } else { j + 1 };
        lemma_found(t, j, k2);
        lemma_found(s, j0, k2);
        assert(t[j].1@ == s[j0].1@);
    }
    assert(map_of(t) =~= map_of(s).remove(k));
}

/// Appending an entry whose key is fresh adds exactly that association and
/// keeps the keys distinct. `t` is `s` with one entry appended.
proof fn lemma_push_fresh(s: Seq<(String, String)>, t: Seq<(String, String)>)
    requires
        keys_distinct(s),
        t.len() == s.len() + 1,
        forall|j: int| 0 <= j < s.len() ==> t[j] == s[j],
        !has_key(s, t.last().0@),
    ensures
        keys_distinct(t),
        map_of(t) == map_of(s).insert(t.last().0@, t.last().1@),
{
    let n = s.len() as int;
    let k = t.last().0@;
    assert forall|a: int, b: int| 0 <= a < b < t.len() implies #[trigger] t[a].0@
        != #[trigger] t[b].0@ by {
        if b < n {
            assert(s[a].0@ != s[b].0@);
        } else {
            assert(t[a] == s[a]);
            if t[a].0@ == k {
                assert(has_key(s, k));
            }
        }
    }
    assert forall|k2: Seq<char>| true implies #[trigger] has_key(t, k2) == (k2 == k || has_key(
        s,
        k2,
    )) by {
        if has_key(t, k2) {
            let j = choose|j: int| 0 <= j < t.len() && #[trigger] t[j].0@ == k2;
            if j < n {
                assert(s[j].0@ == k2);
                assert(has_key(s, k2));
            }
        }
        if k2 == k {
            assert(t[n].0@ == k2);
            assert(has_key(t, k2));
        }
        if has_key(s, k2) {
            let j = choose|j: int| 0 <= j < s.len() && #[trigger] s[j].0@ == k2;
            assert(t[j].0@ == k2);
            assert(has_key(t, k2));
        }
    }
    assert(map_of(t).contains_key(k) && map_of(t)[k] == t.last().1@) by {
        lemma_found(t, n, k);
    }
    assert forall|k2: Seq<char>| k2 != k && has_key(t, k2) implies #[trigger] map_of(t)[k2]
        == map_of(s)[k2] by {
        let j = choose|j: int| 0 <= j < t.len() && #[trigger] t[j].0@ == k2;
        assert(j < n);
        lemma_found(t, j, k2);
        lemma_found(s, j, k2);
    }
    assert(map_of(t) =~= map_of(s).insert(k, t.last().1@));
}

/// The position of the entry with key `key`, if one exists.
fn find(entries: &Vec<(String, String)>, key: &String) -> (r: Option<usize>)
    ensures
        match r {
            Some(i) => i < entries@.len() && entries@[i as int].0@ == key@,
            None => !has_key(entries@, key@),
        },
{
    let n = entries.len();
    let mut i: usize = 0;
    while i < n
        invariant
            i <= n,
            n == entries@.len(),
            forall|j: int| 0 <= j < i ==> #[trigger] entries@[j].0@ != key@,
        decreases n - i,
    {
        if entries[i].0 == *key {
            return Some(i);
        }
        i = i + 1;
    }
    None
}

impl KvStore {
    /// Insert or overwrite the entry for `key` with `value`. The mapping
    /// afterwards is the old mapping with `key` bound to `value`; the result
    /// reports the value `key` was bound to before, or `None` when `key` was
    /// new. Always succeeds; no other observable effect.
    pub fn set(&mut self, key: String, value: String) -> (r: Option<String>)
        ensures
            final(self)@ == old(self)@.insert(key@, value@),
            r.deep_view() == spec_get(old(self)@, key@),
    {
        proof {
            use_type_invariant(&*self);
        }
        let mut entries: Vec<(String, String)> = Vec::new();
        std::mem::swap(&mut entries, &mut self.entries);
        let ghost s0 = entries@;
        let r = match find(&entries, &key) {
            Some(i) => {
                proof {
                    lemma_found(s0, i as int, key@);
                    lemma_remove_at(s0, i as int);
                }
                let pair = entries.remove(i);
                Some(pair.1)
            },
            None => None,
        };
        let ghost s1 = entries@;
        entries.push((key, value));
        proof {
            lemma_push_fresh(s1, entries@);
            assert(map_of(s0).remove(key@).insert(key@, value@) =~= map_of(s0).insert(
                key@,
                value@,
            ));
        }
        self.entries = entries;
        r
    }

    /// Look up `key`: the value it is bound to, or `None` when it is absent.
    /// Pure read: the mapping is untouched, so repeated calls without an
    /// intervening mutation all return the same result.
    pub fn get(&self, key: String) -> (r: Option<String>)
        ensures
            r.deep_view() == spec_get(self@, key@),
    {
        proof {
            use_type_invariant(&*self);
        }
        match find(&self.entries, &key) {
            Some(i) => {
                proof {
                    lemma_found(self.entries@, i as int, key@);
                }
                Some(self.entries[i].1.clone())
            },
            None => None,
        }
    }

    /// Delete the entry for `key` if present, reporting its value; `None`
    /// when `key` is absent, in which case the mapping (and so its size) is
    /// unchanged.
    pub fn remove(&mut self, key: String) -> (r: Option<String>)
        ensures
            final(self)@ == old(self)@.remove(key@),
            r.deep_view() == spec_get(old(self)@, key@),
    {
        proof {
            use_type_invariant(&*self);
        }
        let mut entries: Vec<(String, String)> = Vec::new();
        std::mem::swap(&mut entries, &mut self.entries);
        let ghost s0 = entries@;
        let r = match find(&entries, &key) {
            Some(i) => {
                proof {
                    lemma_found(s0, i as int, key@);
                    lemma_remove_at(s0, i as int);
                }
                let pair = entries.remove(i);
                Some(pair.1)
            },
            None => {
                proof {
                    assert(map_of(s0).remove(key@) =~= map_of(s0));
                }
                None
            },
        };
        self.entries = entries;
        r
    }
}

/// After `set(k, v)`, a `get(k)` returns `v`: binding `k` to `v` makes the
/// lookup of `k` yield exactly `v`.
pub proof fn lemma_get_after_set(m: Map<Seq<char>, Seq<char>>, k: Seq<char>, v: Seq<char>)
    ensures
        spec_get(m.insert(k, v), k) == Some(v),
{
}

/// Before any `set(k, _)` — in a store as `new` creates it — `get(k)` is
/// absent.
pub proof fn lemma_get_on_empty(k: Seq<char>)
    ensures
        spec_get(Map::<Seq<char>, Seq<char>>::empty(), k) == None::<Seq<char>>,
{
}

/// Two writes to one key: the second overwrites, and the lookup the second
/// `set` makes to report the previous value yields the first write's value.
pub proof fn lemma_set_twice(
    m: Map<Seq<char>, Seq<char>>,
    k: Seq<char>,
    v1: Seq<char>,
    v2: Seq<char>,
)
    ensures
        spec_get(m.insert(k, v1).insert(k, v2), k) == Some(v2),
        spec_get(m.insert(k, v1), k) == Some(v1),
{
}

/// `remove(k)` after `set(k, v)` reports `v` as the removed value and leaves
/// a subsequent `get(k)` absent.
pub proof fn lemma_remove_after_set(m: Map<Seq<char>, Seq<char>>, k: Seq<char>, v: Seq<char>)
    ensures
        spec_get(m.insert(k, v), k) == Some(v),
        spec_get(m.insert(k, v).remove(k), k) == None::<Seq<char>>,
{
}

/// `remove(k)` of a key that is absent reports absent and leaves the mapping
/// — and with it the mapping's size — unchanged.
pub proof fn lemma_remove_absent(m: Map<Seq<char>, Seq<char>>, k: Seq<char>)
    requires
        !m.contains_key(k),
    ensures
        spec_get(m, k) == None::<Seq<char>>,
        m.remove(k) == m,
        m.remove(k).dom().len() == m.dom().len(),
{
    assert(m.remove(k) =~= m);
}

/// Lookups are deterministic: any two results that `get(k)` can report on
/// one and the same mapping — no mutation in between — are equal.
pub proof fn lemma_get_idempotent(
    m: Map<Seq<char>, Seq<char>>,
    k: Seq<char>,
    r1: Option<Seq<char>>,
    r2: Option<Seq<char>>,
)
    requires
        r1 == spec_get(m, k),
        r2 == spec_get(m, k),
    ensures
        r1 == r2,
{
}

impl Default for KvStore {
    /// An empty store, as `new` gives.
    fn default() -> (r: KvStore)
        ensures
            r@ == Map::<Seq<char>, Seq<char>>::empty(),
    {
        KvStore::new()
    }
}

} // verus!


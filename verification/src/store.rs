//! Bounded key-value cache with least-recently-used eviction.
//!
//! The cache itself is `lru::LruCache`; its observable state is modelled as a
//! sequence of `(key, value)` pairs ordered from most- to least-recently
//! used, and every operation's contract pins the new sequence as a function
//! of the old one.
use vstd::prelude::*;

verus! {

/// The observable contents of the cache: `(key, value)` pairs, index 0 the
/// most-recently-used entry, the last index the least-recently-used one.
pub uninterp spec fn lru_entries(c: lru::LruCache<String, String>) -> Seq<(Seq<char>, Seq<char>)>;

/// The fixed capacity the cache was created with.
pub uninterp spec fn lru_capacity(c: lru::LruCache<String, String>) -> nat;

/// Declares `lru::LruCache` so it can stand in fields and signatures; the
/// type stays opaque, spoken of only through `lru_entries` and
/// `lru_capacity`.
#[verifier::external_type_specification]
#[verifier::external_body]
#[verifier::reject_recursive_types(K)]
#[verifier::reject_recursive_types(V)]
#[verifier::reject_recursive_types(S)]
pub struct ExLruCache<K, V, S>(lru::LruCache<K, V, S>);

/// The keys of the entries, in recency order.
pub open spec fn entry_keys(es: Seq<(Seq<char>, Seq<char>)>) -> Seq<Seq<char>> {
    es.map_values(|e: (Seq<char>, Seq<char>)| e.0)
}

/// Every key maps to at most one entry.
pub open spec fn distinct_keys(es: Seq<(Seq<char>, Seq<char>)>) -> bool {
    entry_keys(es).no_duplicates()
}

/// Position of the entry for `k`, if any (first occurrence in recency order).
pub open spec fn entry_index(es: Seq<(Seq<char>, Seq<char>)>, k: Seq<char>) -> Option<int> {
    entry_keys(es).index_of_first(k)
}

/// The value currently mapped to `k`, if any.
pub open spec fn entry_value(es: Seq<(Seq<char>, Seq<char>)>, k: Seq<char>) -> Option<Seq<char>> {
    match entry_index(es, k) {
        Some(i) => Some(es[i].1),
        None => None,
    }
}

/// Contents after a `get` of `k`: a hit moves the entry to the
/// most-recently-used end, a miss changes nothing.
pub open spec fn touched(es: Seq<(Seq<char>, Seq<char>)>, k: Seq<char>) -> Seq<
    (Seq<char>, Seq<char>),
> {
    match entry_index(es, k) {
        Some(i) => seq![es[i]] + es.remove(i),
        None => es,
    }
}

/// Contents after a `put` of `(k, v)` into a cache of capacity `cap`: an
/// existing entry for `k` is replaced and moved to the most-recently-used
/// end; otherwise the new entry is inserted there, evicting the
/// least-recently-used entry first when the cache sits exactly at its
/// capacity.
pub open spec fn inserted(
    es: Seq<(Seq<char>, Seq<char>)>,
    cap: nat,
    k: Seq<char>,
    v: Seq<char>,
) -> Seq<(Seq<char>, Seq<char>)> {
    match entry_index(es, k) {
        Some(i) => seq![(k, v)] + es.remove(i),
        None => if es.len() == cap {
            seq![(k, v)] + es.drop_last()
        } else {
            seq![(k, v)] + es
        },
    }
}

/// Contents after a `delete` of `k`: the entry is removed if present, the
/// order of the others is kept.
pub open spec fn removed(es: Seq<(Seq<char>, Seq<char>)>, k: Seq<char>) -> Seq<
    (Seq<char>, Seq<char>),
> {
    match entry_index(es, k) {
        Some(i) => es.remove(i),
        None => es,
    }
}

/// Relies on `lru::LruCache::new`: a fresh cache with the given capacity
/// holds no entries.
#[verifier::external_body]
fn lru_new(cap: usize) -> (c: lru::LruCache<String, String>)
    requires
        1 <= cap,
    ensures
        lru_entries(c) == Seq::<(Seq<char>, Seq<char>)>::empty(),
        lru_capacity(c) == cap,
{
    lru::LruCache::new(std::num::NonZeroUsize::new(cap).unwrap())
}

/// Relies on `lru::LruCache::get`: returns the value stored for the key and
/// moves its entry to the most-recently-used position; on a miss it returns
/// `None` and changes nothing.
#[verifier::external_body]
fn lru_get(c: &mut lru::LruCache<String, String>, key: &String) -> (r: Option<String>)
    ensures
        lru_capacity(*final (c)) == lru_capacity(*old(c)),
        lru_entries(*final (c)) == touched(lru_entries(*old(c)), key@),
        match r {
            Some(v) => entry_value(lru_entries(*old(c)), key@) == Some(v@),
            None => entry_value(lru_entries(*old(c)), key@) is None,
        },
{
    c.get(key).cloned()
}

/// Relies on `lru::LruCache::put`: inserts or overwrites the entry, makes it
/// most-recently-used, and evicts the least-recently-used entry when a new
/// key arrives with the cache already at its capacity.
#[verifier::external_body]
fn lru_put(c: &mut lru::LruCache<String, String>, key: String, value: String)
    ensures
        lru_capacity(*final (c)) == lru_capacity(*old(c)),
        lru_entries(*final (c)) == inserted(
            lru_entries(*old(c)),
            lru_capacity(*old(c)),
            key@,
            value@,
        ),
{
    c.put(key, value);
}

/// Relies on `lru::LruCache::pop`: removes the entry for the key if present,
/// keeping the order of the remaining entries.
#[verifier::external_body]
fn lru_pop(c: &mut lru::LruCache<String, String>, key: &String)
    ensures
        lru_capacity(*final (c)) == lru_capacity(*old(c)),
        lru_entries(*final (c)) == removed(lru_entries(*old(c)), key@),
{
    c.pop(key);
}

/// Relies on `lru::LruCache::len`: the number of entries currently held.
#[verifier::external_body]
fn lru_len(c: &lru::LruCache<String, String>) -> (n: usize)
    ensures
        n == lru_entries(*c).len(),
{
    c.len()
}

/// Fixed-capacity key-value store with least-recently-used eviction.
pub struct Store {
    cache: lru::LruCache<String, String>,
}

impl View for Store {
    type V = Seq<(Seq<char>, Seq<char>)>;

    closed spec fn view(&self) -> Seq<(Seq<char>, Seq<char>)> {
        lru_entries(self.cache)
    }
}

impl Store {
    /// The capacity the store was created with.
    pub closed spec fn capacity(&self) -> nat {
        lru_capacity(self.cache)
    }

    /// The store never holds more entries than its capacity, and no key
    /// has more than one entry.
    pub open spec fn wf(&self) -> bool {
        &&& 1 <= self.capacity()
        &&& self@.len() <= self.capacity()
        &&& distinct_keys(self@)
    }

    /// Creates an empty store that will hold at most `size` entries.
    pub fn new(size: usize) -> (s: Store)
        requires
            1 <= size,
        ensures
            s.wf(),
            s@ == Seq::<(Seq<char>, Seq<char>)>::empty(),
            s.capacity() == size,
    {
        let s = Store { cache: lru_new(size) };
        proof {
            assert(entry_keys(s@) =~= Seq::<Seq<char>>::empty());
        }
        s
    }

    /// Returns the value for `key` if present, marking the entry
    /// most-recently-used; returns `None` for an unknown key.
    pub fn get(&mut self, key: String) -> (r: Option<String>)
        ensures
            final (self).capacity() == old(self).capacity(),
            final (self)@ == touched(old(self)@, key@),
            old(self).wf() ==> final (self).wf(),
            match r {
                Some(v) => entry_value(old(self)@, key@) == Some(v@),
                None => entry_value(old(self)@, key@) is None,
            },
    {
        let r = lru_get(&mut self.cache, &key);
        proof {
            lemma_touched_shape(old(self)@, key@);
        }
        r
    }

    /// Inserts or overwrites the entry for `key`, evicting the
    /// least-recently-used entry first if a new key would exceed the
    /// capacity. Never fails.
    pub fn put(&mut self, key: String, value: String)
        ensures
            final (self).capacity() == old(self).capacity(),
            final (self)@ == inserted(old(self)@, old(self).capacity(), key@, value@),
            old(self).wf() ==> final (self).wf(),
            old(self).wf() ==> entry_value(final (self)@, key@) == Some(value@),
    {
        proof {
            if old(self).wf() {
                lemma_inserted_shape(old(self)@, old(self).capacity(), key@, value@);
            }
        }
        lru_put(&mut self.cache, key, value);
    }

    /// Removes the entry for `key` if present; an absent key is a no-op.
    pub fn delete(&mut self, key: String)
        ensures
            final (self).capacity() == old(self).capacity(),
            final (self)@ == removed(old(self)@, key@),
            old(self).wf() ==> final (self).wf(),
            old(self).wf() ==> entry_value(final (self)@, key@) is None,
    {
        proof {
            lemma_removed_shape(old(self)@, key@);
        }
        lru_pop(&mut self.cache, &key);
    }

    /// The number of entries currently held.
    pub fn len(&self) -> (n: usize)
        ensures
            n == self@.len(),
    {
        lru_len(&self.cache)
    }
}

/// The contents a store of capacity `cap` holds after the given puts are
/// applied, in order, to an empty store.
pub open spec fn after_puts(cap: nat, ops: Seq<(Seq<char>, Seq<char>)>) -> Seq<
    (Seq<char>, Seq<char>),
>
    decreases ops.len(),
{
    if ops.len() == 0 {
        Seq::empty()
    } else {
        inserted(after_puts(cap, ops.drop_last()), cap, ops.last().0, ops.last().1)
    }
}

/// Capacity invariant: whatever sequence of puts is applied to an empty
/// store, it never holds more than `cap` entries.
pub proof fn lemma_capacity_invariant(cap: nat, ops: Seq<(Seq<char>, Seq<char>)>)
    requires
        1 <= cap,
    ensures
        after_puts(cap, ops).len() <= cap,
    decreases ops.len(),
{
    if ops.len() == 0 {
    } else {
        lemma_capacity_invariant(cap, ops.drop_last());
        lemma_inserted_shape(after_puts(cap, ops.drop_last()), cap, ops.last().0, ops.last().1);
    }
}

proof fn lemma_keys_remove(es: Seq<(Seq<char>, Seq<char>)>, i: int)
    requires
        0 <= i < es.len(),
    ensures
        entry_keys(es.remove(i)) == entry_keys(es).remove(i),
{
    assert(entry_keys(es.remove(i)) =~= entry_keys(es).remove(i));
}

proof fn lemma_keys_prepend(e: (Seq<char>, Seq<char>), es: Seq<(Seq<char>, Seq<char>)>)
    ensures
        entry_keys(seq![e] + es) == seq![e.0] + entry_keys(es),
{
    assert(entry_keys(seq![e] + es) =~= seq![e.0] + entry_keys(es));
}

/// Prepending a key nothing else holds keeps the keys distinct.
proof fn lemma_front_distinct(ks: Seq<Seq<char>>, k: Seq<char>)
    requires
        ks.no_duplicates(),
        !ks.contains(k),
    ensures
        (seq![k] + ks).no_duplicates(),
{
    let ks2 = seq![k] + ks;
    assert forall|i: int, j: int|
        0 <= i < ks2.len() && 0 <= j < ks2.len() && i != j implies ks2[i] != ks2[j] by {
        if i == 0 {
            assert(ks2[j] == ks[j - 1]);
            assert(ks.contains(ks[j - 1]));
        } else if j == 0 {
            assert(ks2[i] == ks[i - 1]);
            assert(ks.contains(ks[i - 1]));
        } else {
            assert(ks2[i] == ks[i - 1] && ks2[j] == ks[j - 1]);
        }
    }
}

/// Removing the only entry of a key keeps the rest distinct and free of it.
proof fn lemma_remove_distinct(ks: Seq<Seq<char>>, i: int)
    requires
        ks.no_duplicates(),
        0 <= i < ks.len(),
    ensures
        ks.remove(i).no_duplicates(),
        !ks.remove(i).contains(ks[i]),
        forall|x: Seq<char>| ks.remove(i).contains(x) ==> ks.contains(x),
{
    ks.remove_ensures(i);
    let ks2 = ks.remove(i);
    assert forall|a: int, b: int|
        0 <= a < ks2.len() && 0 <= b < ks2.len() && a != b implies ks2[a] != ks2[b] by {
        let a0: int = if a < i { a } else { a + 1 };
        let b0: int = if b < i { b } else { b + 1 };
        assert(ks2[a] == ks[a0] && ks2[b] == ks[b0]);
    }
    assert forall|j: int| 0 <= j < ks2.len() implies ks2[j] != ks[i] by {
        let j0: int = if j < i { j } else { j + 1 };
        assert(ks2[j] == ks[j0]);
    }
    if ks2.contains(ks[i]) {
        let j = choose|j: int| 0 <= j < ks2.len() && ks2[j] == ks[i];
        assert(false);
    }
    assert forall|x: Seq<char>| ks2.contains(x) implies ks.contains(x) by {
        let j = choose|j: int| 0 <= j < ks2.len() && ks2[j] == x;
        let j0: int = if j < i { j } else { j + 1 };
        assert(ks[j0] == x);
    }
}

/// A hit on `k` keeps the length and makes `k` the most-recently-used key,
/// a miss keeps everything; either way distinct keys stay distinct.
pub proof fn lemma_touched_shape(es: Seq<(Seq<char>, Seq<char>)>, k: Seq<char>)
    ensures
        touched(es, k).len() == es.len(),
        entry_index(es, k) is Some ==> entry_value(touched(es, k), k) == entry_value(es, k),
        entry_index(es, k) is None ==> touched(es, k) == es,
        distinct_keys(es) ==> distinct_keys(touched(es, k)),
{
    entry_keys(es).index_of_first_ensures(k);
    match entry_index(es, k) {
        Some(i) => {
            let moved = touched(es, k);
            assert(moved[0] == es[i]);
            assert(entry_keys(moved)[0] == k);
            entry_keys(moved).index_of_first_ensures(k);
            if distinct_keys(es) {
                lemma_keys_prepend(es[i], es.remove(i));
                lemma_keys_remove(es, i);
                lemma_remove_distinct(entry_keys(es), i);
                lemma_front_distinct(entry_keys(es).remove(i), k);
            }
        },
        None => {},
    }
}

/// After a put of `(k, v)` the entry for `k` is the most-recently-used one
/// and holds `v`, the store has not grown past its capacity, and distinct
/// keys stay distinct.
pub proof fn lemma_inserted_shape(es: Seq<(Seq<char>, Seq<char>)>, cap: nat, k: Seq<char>, v: Seq<char>)
    requires
        es.len() <= cap,
        1 <= cap,
    ensures
        inserted(es, cap, k, v).len() <= cap,
        1 <= inserted(es, cap, k, v).len(),
        inserted(es, cap, k, v)[0] == (k, v),
        entry_value(inserted(es, cap, k, v), k) == Some(v),
        distinct_keys(es) ==> distinct_keys(inserted(es, cap, k, v)),
{
    entry_keys(es).index_of_first_ensures(k);
    let es2 = inserted(es, cap, k, v);
    assert(es2[0] == (k, v));
    assert(entry_keys(es2)[0] == k);
    entry_keys(es2).index_of_first_ensures(k);
    if distinct_keys(es) {
        let ks = entry_keys(es);
        match entry_index(es, k) {
            Some(i) => {
                lemma_keys_prepend((k, v), es.remove(i));
                lemma_keys_remove(es, i);
                lemma_remove_distinct(ks, i);
                lemma_front_distinct(ks.remove(i), k);
            },
            None => {
                if es.len() < cap {
                    lemma_keys_prepend((k, v), es);
                    lemma_front_distinct(ks, k);
                } else {
                    lemma_keys_prepend((k, v), es.drop_last());
                    lemma_keys_remove(es, es.len() - 1);
                    lemma_remove_distinct(ks, es.len() - 1);
                    assert(es.drop_last() =~= es.remove(es.len() - 1));
                    if entry_keys(es.drop_last()).contains(k) {
                        assert(ks.contains(k));
                    }
                    lemma_front_distinct(ks.remove(es.len() - 1), k);
                }
            },
        }
    }
}

/// A delete never grows the store, keeps distinct keys distinct, and — with
/// distinct keys — leaves no entry for `k` behind.
pub proof fn lemma_removed_shape(es: Seq<(Seq<char>, Seq<char>)>, k: Seq<char>)
    ensures
        removed(es, k).len() <= es.len(),
        distinct_keys(es) ==> distinct_keys(removed(es, k)),
        distinct_keys(es) ==> entry_value(removed(es, k), k) is None,
{
    entry_keys(es).index_of_first_ensures(k);
    match entry_index(es, k) {
        Some(i) => {
            if distinct_keys(es) {
                let es2 = removed(es, k);
                lemma_keys_remove(es, i);
                lemma_remove_distinct(entry_keys(es), i);
                entry_keys(es2).index_of_first_ensures(k);
                if entry_index(es2, k) is Some {
                    let j = entry_index(es2, k)->Some_0;
                    assert(entry_keys(es2).contains(entry_keys(es2)[j]));
                }
            }
        },
        None => {
            entry_keys(removed(es, k)).index_of_first_ensures(k);
        },
    }
}

} // verus!

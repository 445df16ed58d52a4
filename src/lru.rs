//! One cache partition: a store of entries, the recency chain of their
//! accesses, the limits that its evictor enforces, and statistics.

use std::collections::HashMap;
use vstd::prelude::*;

use crate::evictor::{is_expired, surplus, Evictor};
use crate::list::{ids_sorted, tombstoned, List, Node};
use crate::{Cache, Error};

verus! {

broadcast use vstd::std_specs::hash::group_hash_axioms;

/// Counters of a cache's activity.
#[derive(Debug, Clone, Copy, PartialEq, Eq, Structural)]
pub struct Stats {
    /// Lookups that found their key.
    pub n_gets: u64,
    /// Insertions and overwrites.
    pub n_sets: u64,
    /// Records unlinked to bring the entry count under its limit.
    pub n_evicted: u64,
    /// Tombstoned records unlinked.
    pub n_deleted: u64,
    /// Records unlinked for their age.
    pub n_older: u64,
    /// Entries taken out of the store by sweeps.
    pub n_removed: u64,
}

/// `n + 1`, held at the largest value.
pub open spec fn bumped(n: u64) -> u64 {
    if n < u64::MAX {
        (n + 1) as u64
    } else {
        n
    }
}

fn bump(n: u64) -> (r: u64)
    ensures
        r == bumped(n),
{
    if n < u64::MAX {
        n + 1
    } else {
        n
    }
}

/// The store and the chain agree: every live record is the current record of
/// its key, and every stored key has its current record live in the chain.
pub open spec fn linked<V>(store: Map<u64, Cache<V>>, nodes: Seq<Node>) -> bool {
    &&& forall|i: int|
        0 <= i < nodes.len() && !(#[trigger] nodes[i]).deleted ==> store.contains_key(nodes[i].key)
            && store[nodes[i].key].access == nodes[i].id
    &&& forall|k: u64|
        #[trigger] store.contains_key(k) ==> exists|i: int|
            0 <= i < nodes.len() && (#[trigger] nodes[i]).id == store[k].access && nodes[i].key == k
                && !nodes[i].deleted
}

/// Linking a new key's record keeps store and chain in agreement.
proof fn lemma_link_new<V>(store: Map<u64, Cache<V>>, nodes: Seq<Node>, key: u64, c: Cache<V>, now: u64)
    requires
        linked(store, nodes),
        !store.contains_key(key),
    ensures
        linked(store.insert(key, c), nodes.push(Node { id: c.access, key, born: now, deleted: false })),
{
    let new_store = store.insert(key, c);
    let nodes1 = nodes.push(Node { id: c.access, key, born: now, deleted: false });
    let nn = nodes.len() as int;
    assert forall|i: int|
        0 <= i < nodes1.len() && !(#[trigger] nodes1[i]).deleted implies new_store.contains_key(
            nodes1[i].key,
        ) && new_store[nodes1[i].key].access == nodes1[i].id by {
        if i < nn {
            assert(nodes1[i] == nodes[i]);
        }
    }
    assert forall|k: u64| #[trigger] new_store.contains_key(k) implies exists|i: int|
        0 <= i < nodes1.len() && (#[trigger] nodes1[i]).id == new_store[k].access
            && nodes1[i].key == k && !nodes1[i].deleted by {
        if k == key {
            assert(nodes1[nn].id == new_store[k].access);
        } else {
            let j = choose|i: int|
                0 <= i < nodes.len() && (#[trigger] nodes[i]).id == store[k].access
                    && nodes[i].key == k && !nodes[i].deleted;
            assert(nodes1[j] == nodes[j]);
        }
    }
}

/// Moving a stored key to a new record, and tombstoning its former record,
/// keeps store and chain in agreement.
proof fn lemma_relink<V>(store: Map<u64, Cache<V>>, nodes: Seq<Node>, key: u64, c: Cache<V>, now: u64)
    requires
        linked(store, nodes),
        ids_sorted(nodes, c.access),
        store.contains_key(key),
    ensures
        linked(
            store.insert(key, c),
            tombstoned(nodes.push(Node { id: c.access, key, born: now, deleted: false }), store[key].access),
        ),
{
    let new_store = store.insert(key, c);
    let nodes1 = nodes.push(Node { id: c.access, key, born: now, deleted: false });
    let pa = store[key].access;
    let nodes2 = tombstoned(nodes1, pa);
    let nn = nodes.len() as int;
    let w = choose|i: int|
        0 <= i < nodes.len() && (#[trigger] nodes[i]).id == store[key].access && nodes[i].key == key
            && !nodes[i].deleted;
    assert(nodes1[w] == nodes[w]);
    assert forall|i: int|
        0 <= i < nodes2.len() && !(#[trigger] nodes2[i]).deleted implies new_store.contains_key(
            nodes2[i].key,
        ) && new_store[nodes2[i].key].access == nodes2[i].id by {
        assert(nodes1[i].id != pa);
        if i < nn {
            assert(nodes1[i] == nodes[i]);
            if nodes[i].key == key {
                assert(nodes[i].id == pa);
            }
        }
    }
    assert forall|k: u64| #[trigger] new_store.contains_key(k) implies exists|i: int|
        0 <= i < nodes2.len() && (#[trigger] nodes2[i]).id == new_store[k].access
            && nodes2[i].key == k && !nodes2[i].deleted by {
        if k == key {
            assert(nodes2[nn].id == new_store[k].access);
        } else {
            let j = choose|i: int|
                0 <= i < nodes.len() && (#[trigger] nodes[i]).id == store[k].access
                    && nodes[i].key == k && !nodes[i].deleted;
            assert(nodes1[j] == nodes[j]);
            if nodes[j].id == pa {
                assert(j == w);
            }
            assert(nodes2[j].id == new_store[k].access);
        }
    }
}

/// Removing a stored key, and tombstoning its record, keeps store and chain
/// in agreement.
proof fn lemma_unlink<V>(store: Map<u64, Cache<V>>, nodes: Seq<Node>, key: u64, next_id: u64)
    requires
        linked(store, nodes),
        ids_sorted(nodes, next_id),
        store.contains_key(key),
    ensures
        linked(store.remove(key), tombstoned(nodes, store[key].access)),
{
    let new_store = store.remove(key);
    let pa = store[key].access;
    let nodes2 = tombstoned(nodes, pa);
    let w = choose|i: int|
        0 <= i < nodes.len() && (#[trigger] nodes[i]).id == store[key].access && nodes[i].key == key
            && !nodes[i].deleted;
    assert forall|i: int|
        0 <= i < nodes2.len() && !(#[trigger] nodes2[i]).deleted implies new_store.contains_key(
            nodes2[i].key,
        ) && new_store[nodes2[i].key].access == nodes2[i].id by {
        if nodes[i].key == key {
            assert(nodes[i].id == pa);
        }
    }
    assert forall|k: u64| #[trigger] new_store.contains_key(k) implies exists|i: int|
        0 <= i < nodes2.len() && (#[trigger] nodes2[i]).id == new_store[k].access
            && nodes2[i].key == k && !nodes2[i].deleted by {
        let j = choose|i: int|
            0 <= i < nodes.len() && (#[trigger] nodes[i]).id == store[k].access
                && nodes[i].key == k && !nodes[i].deleted;
        if nodes[j].id == pa {
            assert(j == w);
        }
        assert(nodes2[j].id == new_store[k].access);
    }
}

/// Unlinking the record at `p`: a tombstoned one leaves the store as it is; a
/// live one takes its key out of the store.
proof fn lemma_drop_node<V>(store: Map<u64, Cache<V>>, nodes: Seq<Node>, p: int, next_id: u64)
    requires
        linked(store, nodes),
        ids_sorted(nodes, next_id),
        0 <= p < nodes.len(),
    ensures
        nodes[p].deleted ==> linked(store, nodes.remove(p)),
        !nodes[p].deleted ==> store.contains_key(nodes[p].key) && store[nodes[p].key].access
            == nodes[p].id && linked(store.remove(nodes[p].key), nodes.remove(p)),
{
    let s2 = nodes.remove(p);
    let key = nodes[p].key;
    let st2 = if nodes[p].deleted { store } else { store.remove(key) };
    assert forall|i: int|
        0 <= i < s2.len() && !(#[trigger] s2[i]).deleted implies st2.contains_key(s2[i].key)
            && st2[s2[i].key].access == s2[i].id by {
        let q = if i < p { i } else { i + 1 };
        assert(s2[i] == nodes[q]);
        if !nodes[p].deleted && nodes[q].key == key {
            assert(nodes[q].id == nodes[p].id);
        }
    }
    assert forall|k: u64| #[trigger] st2.contains_key(k) implies exists|i: int|
        0 <= i < s2.len() && (#[trigger] s2[i]).id == st2[k].access && s2[i].key == k
            && !s2[i].deleted by {
        let j = choose|i: int|
            0 <= i < nodes.len() && (#[trigger] nodes[i]).id == store[k].access && nodes[i].key == k
                && !nodes[i].deleted;
        assert(j != p);
        let q = if j < p { j } else { j - 1 };
        assert(s2[q] == nodes[j]);
    }
}

/// What one sweep leaves of `nodes` (oldest first), and which keys it takes
/// out of the store. Only the first `limit` records are visited; `budget` is
/// the number of evictions still owed.
pub open spec fn swept(ev: Evictor, now: u64, nodes: Seq<Node>, limit: int, budget: nat) -> (Seq<Node>, Set<u64>)
    decreases nodes.len(),
{
    if nodes.len() == 0 || limit <= 0 {
        (nodes, Set::empty())
    } else {
        let n = nodes[0];
        let rest = nodes.drop_first();
        if n.deleted {
            swept(ev, now, rest, limit - 1, budget)
        } else if is_expired(ev, n.born, now) {
            let (k, g) = swept(ev, now, rest, limit - 1, budget);
            (k, g.insert(n.key))
        } else if budget > 0 {
            let (k, g) = swept(ev, now, rest, limit - 1, (budget - 1) as nat);
            (k, g.insert(n.key))
        } else {
            let (k, g) = swept(ev, now, rest, limit - 1, budget);
            (seq![n] + k, g)
        }
    }
}

/// How many tombstoned, aged and surplus records one sweep unlinks, along the
/// same visit as `swept`.
pub open spec fn sweep_counts(ev: Evictor, now: u64, nodes: Seq<Node>, limit: int, budget: nat) -> (nat, nat, nat)
    decreases nodes.len(),
{
    if nodes.len() == 0 || limit <= 0 {
        (0, 0, 0)
    } else {
        let n = nodes[0];
        let rest = nodes.drop_first();
        if n.deleted {
            let c = sweep_counts(ev, now, rest, limit - 1, budget);
            (c.0 + 1, c.1, c.2)
        } else if is_expired(ev, n.born, now) {
            let c = sweep_counts(ev, now, rest, limit - 1, budget);
            (c.0, c.1 + 1, c.2)
        } else if budget > 0 {
            let c = sweep_counts(ev, now, rest, limit - 1, (budget - 1) as nat);
            (c.0, c.1, c.2 + 1)
        } else {
            sweep_counts(ev, now, rest, limit - 1, budget)
        }
    }
}

/// `n + k`, held at the largest value.
pub open spec fn plus(n: u64, k: nat) -> u64 {
    if n + k <= u64::MAX {
        (n + k) as u64
    } else {
        u64::MAX
    }
}

/// The record that a call at time `now` adds for `key` to cache `b`.
pub open spec fn new_record<V>(b: Lru<V>, key: u64, now: u64) -> Node {
    Node { id: b.next_id(), key, born: now, deleted: false }
}

/// `a` and `r` are what a lookup of `key` at time `now` makes of `b`: a miss
/// changes nothing; a hit hands back a clone of the value, records the access
/// as the newest and tombstones the entry's former record.
pub open spec fn got<V: Clone>(b: Lru<V>, a: Lru<V>, key: u64, now: u64, r: Result<Option<V>, Error>) -> bool {
    if !b@.contains_key(key) {
        r == Ok::<Option<V>, Error>(None) && a == b
    } else if b.next_id() == u64::MAX {
        r == Err::<Option<V>, Error>(Error::Exhausted) && a == b
    } else {
        &&& r matches Ok(Some(v)) && cloned(b@[key], v)
        &&& a@ == b@
        &&& a.access_of(key) == b.next_id()
        &&& a.next_id() == b.next_id() + 1
        &&& a.records() == tombstoned(b.records(), b.access_of(key)).push(new_record(b, key, now))
        &&& a.limits() == b.limits()
        &&& a.counters() == (Stats { n_gets: bumped(b.counters().n_gets), ..b.counters() })
    }
}

/// `a` and `r` are what storing `value` under `key` at time `now` makes of
/// `b`: the entry is replaced, the former value handed back and its record
/// tombstoned, and the access recorded as the newest.
pub open spec fn put<V>(b: Lru<V>, a: Lru<V>, key: u64, value: V, now: u64, r: Result<Option<V>, Error>) -> bool {
    if b.next_id() == u64::MAX {
        r == Err::<Option<V>, Error>(Error::Exhausted) && a == b
    } else {
        &&& r == Ok::<Option<V>, Error>(b@.get(key))
        &&& a@ == b@.insert(key, value)
        &&& a.access_of(key) == b.next_id()
        &&& a.next_id() == b.next_id() + 1
        &&& a.records() == if b@.contains_key(key) {
            tombstoned(b.records(), b.access_of(key)).push(new_record(b, key, now))
        } else {
            b.records().push(new_record(b, key, now))
        }
        &&& a.limits() == b.limits()
        &&& a.counters() == (Stats { n_sets: bumped(b.counters().n_sets), ..b.counters() })
    }
}

/// `a` is what one sweep at time `now`, with the newest `skip` records left
/// alone, makes of `b`: the records and entries that `swept` keeps, and each
/// unlinked record counted by its kind; every aged or surplus record takes its
/// entry out of the store, so each also counts as a removal.
pub open spec fn sweeps<V>(b: Lru<V>, a: Lru<V>, now: u64, skip: usize) -> bool {
    let n = b.records().len() as int;
    let limit = if skip < n { n - skip } else { 0 };
    let r = swept(b.limits(), now, b.records(), limit, surplus(b.limits(), b@.len()));
    let c = sweep_counts(b.limits(), now, b.records(), limit, surplus(b.limits(), b@.len()));
    &&& a.records() == r.0
    &&& a.counters() == (Stats {
        n_deleted: plus(b.counters().n_deleted, c.0),
        n_older: plus(b.counters().n_older, c.1),
        n_evicted: plus(b.counters().n_evicted, c.2),
        n_removed: plus(b.counters().n_removed, c.1 + c.2),
        ..b.counters()
    })
    &&& a@ == b@.remove_keys(r.1)
    &&& a.next_id() == b.next_id()
    &&& a.limits() == b.limits()
}

/// Default bound on the number of entries.
pub const MAX_ENTRIES: usize = 1_048_576;

/// Relies on `num_cpus::get_physical`: the number of physical cores, which
/// depends on the machine.
#[verifier::external_body]
fn physical_cores() -> (r: usize) {
    num_cpus::get_physical()
}

/// Configuration of a cache.
#[derive(Debug, Clone, Copy, PartialEq, Eq, Structural)]
pub struct LruBuilder {
    /// Number of entries above which surplus ones are evicted.
    pub max_entries: usize,
    /// Memory footprint that counts towards the evictor's pacing, if limited.
    pub max_memory: Option<usize>,
    /// Age in microseconds beyond which entries are evicted, if limited.
    pub max_old: Option<u64>,
    /// Number of threads expected to use the cache at once.
    pub max_threads: usize,
}

impl Default for LruBuilder {
    /// `MAX_ENTRIES` entries, no memory or age limit, one thread per physical
    /// core.
    fn default() -> (r: LruBuilder)
        ensures
            r.max_entries == MAX_ENTRIES,
            r.max_memory is None,
            r.max_old is None,
    {
        LruBuilder { max_entries: MAX_ENTRIES, max_memory: None, max_old: None, max_threads: physical_cores() }
    }
}

impl LruBuilder {
    /// The limits an evictor enforces under this configuration.
    pub fn evictor(&self) -> (r: Evictor)
        ensures
            r == (Evictor { max_entries: self.max_entries, max_memory: self.max_memory, max_old: self.max_old }),
    {
        Evictor { max_entries: self.max_entries, max_memory: self.max_memory, max_old: self.max_old }
    }

    /// An empty cache under this configuration.
    pub fn build<V>(self) -> (r: Lru<V>)
        ensures
            r.wf(),
            r.counters() == (Stats {
                n_gets: 0,
                n_sets: 0,
                n_evicted: 0,
                n_deleted: 0,
                n_older: 0,
                n_removed: 0,
            }),
            r@ == Map::<u64, V>::empty(),
            r.records() == Seq::<Node>::empty(),
            r.next_id() == 0,
            r.limits() == (Evictor { max_entries: self.max_entries, max_memory: self.max_memory, max_old: self.max_old }),
    {
        Lru::new(self.evictor())
    }
}

/// The entries after storing each pair of `sets` in turn, starting from `m`.
pub open spec fn after_sets<V>(m: Map<u64, V>, sets: Seq<(u64, V)>) -> Map<u64, V>
    decreases sets.len(),
{
    if sets.len() == 0 {
        m
    } else {
        after_sets(m, sets.drop_last()).insert(sets.last().0, sets.last().1)
    }
}

/// The latest store of a key wins: after a run of stores, the key of the
/// `i`-th one maps to its value as long as no later store names that key.
pub proof fn lemma_latest_set_wins<V>(m: Map<u64, V>, sets: Seq<(u64, V)>, i: int)
    requires
        0 <= i < sets.len(),
        forall|j: int| i < j < sets.len() ==> (#[trigger] sets[j]).0 != sets[i].0,
    ensures
        after_sets(m, sets).contains_key(sets[i].0),
        after_sets(m, sets)[sets[i].0] == sets[i].1,
    decreases sets.len(),
{
    if i < sets.len() - 1 {
        let init = sets.drop_last();
        assert forall|j: int| i < j < init.len() implies (#[trigger] init[j]).0 != init[i].0 by {
            assert(init[j] == sets[j]);
        }
        lemma_latest_set_wins(m, init, i);
        assert(sets.last() == sets[sets.len() - 1]);
    }
}

/// A lookup right after a successful store of `key` finds the stored value.
pub proof fn lemma_get_after_set<V: Clone>(
    b: Lru<V>,
    a: Lru<V>,
    c: Lru<V>,
    key: u64,
    value: V,
    t1: u64,
    t2: u64,
    r1: Result<Option<V>, Error>,
    r2: Result<Option<V>, Error>,
)
    requires
        put(b, a, key, value, t1, r1),
        r1 is Ok,
        got(a, c, key, t2, r2),
        r2 is Ok,
    ensures
        r2 matches Ok(Some(v)) && cloned(value, v),
{
}

/// A live, expired record within the first `limit` records has its key taken
/// out by the sweep.
proof fn lemma_expired_key_swept(ev: Evictor, now: u64, nodes: Seq<Node>, limit: int, budget: nat, j: int)
    requires
        0 <= j < limit,
        j < nodes.len(),
        !nodes[j].deleted,
        is_expired(ev, nodes[j].born, now),
    ensures
        swept(ev, now, nodes, limit, budget).1.contains(nodes[j].key),
    decreases nodes.len(),
{
    if j > 0 {
        let rest = nodes.drop_first();
        assert(rest[j - 1] == nodes[j]);
        lemma_expired_key_swept(ev, now, rest, limit - 1, budget, j - 1);
        if budget > 0 {
            lemma_expired_key_swept(ev, now, rest, limit - 1, (budget - 1) as nat, j - 1);
        }
    }
}

/// Entries age out: an entry whose current record lies outside the skip
/// window and is older than the age limit at `now` is gone after a sweep at
/// `now`.
pub proof fn lemma_aged_entry_swept<V>(b: Lru<V>, a: Lru<V>, now: u64, skip: usize, key: u64, j: int)
    requires
        b.wf(),
        sweeps(b, a, now, skip),
        b@.contains_key(key),
        0 <= j < b.records().len() - skip,
        b.records()[j].id == b.access_of(key),
        is_expired(b.limits(), b.records()[j].born, now),
    ensures
        !a@.contains_key(key),
{
    let nodes = b.list@;
    assert(b.store@.contains_key(key));
    let w = choose|i: int|
        0 <= i < nodes.len() && (#[trigger] nodes[i]).id == b.store@[key].access && nodes[i].key == key
            && !nodes[i].deleted;
    assert(w == j);
    let n = nodes.len() as int;
    let limit = if skip < n { n - skip } else { 0 };
    lemma_expired_key_swept(b.limits(), now, nodes, limit, surplus(b.limits(), b@.len()), j);
}

/// No record is lost track of: a record that is not tombstoned is the current
/// record of a stored entry, so every superseded record has been tombstoned,
/// and a sweep unlinks it.
pub proof fn lemma_live_record_is_current<V>(c: Lru<V>, j: int)
    requires
        c.wf(),
        0 <= j < c.records().len(),
        !c.records()[j].deleted,
    ensures
        c@.contains_key(c.records()[j].key),
        c.access_of(c.records()[j].key) == c.records()[j].id,
{
    assert(!c.list@[j].deleted);
}

/// A stored key's current record has an identifier below `next_id`, so a
/// record that gets `next_id` is not the one tombstoned beside it.
proof fn lemma_access_below_next<V>(store: Map<u64, Cache<V>>, nodes: Seq<Node>, key: u64, next_id: u64)
    requires
        linked(store, nodes),
        ids_sorted(nodes, next_id),
        store.contains_key(key),
    ensures
        store[key].access < next_id,
        forall|now: u64| #![auto]
            tombstoned(nodes.push(Node { id: next_id, key, born: now, deleted: false }), store[key].access)
                == tombstoned(nodes, store[key].access).push(Node { id: next_id, key, born: now, deleted: false }),
{
    let w = choose|i: int|
        0 <= i < nodes.len() && (#[trigger] nodes[i]).id == store[key].access && nodes[i].key == key
            && !nodes[i].deleted;
    assert forall|now: u64| #![auto]
        tombstoned(nodes.push(Node { id: next_id, key, born: now, deleted: false }), store[key].access)
            == tombstoned(nodes, store[key].access).push(Node { id: next_id, key, born: now, deleted: false }) by {
        assert(tombstoned(nodes.push(Node { id: next_id, key, born: now, deleted: false }), store[key].access)
            =~= tombstoned(nodes, store[key].access).push(Node { id: next_id, key, born: now, deleted: false }));
    }
}

/// A cache holds finitely many entries, and each stored key's current record
/// has an identifier below `next_id()`.
pub proof fn lemma_finite<V>(c: Lru<V>, key: u64)
    requires
        c.wf(),
    ensures
        c@.dom().finite(),
        c@.contains_key(key) ==> c.access_of(key) < c.next_id(),
{
    assert(c@.dom() =~= c.store@.dom());
    if c@.contains_key(key) {
        lemma_access_below_next(c.store@, c.list@, key, c.next_id());
    }
}

/// Every stored key has its current record live in the chain.
pub proof fn lemma_current_record_live<V>(c: Lru<V>, key: u64)
    requires
        c.wf(),
        c@.contains_key(key),
    ensures
        exists|j: int|
            0 <= j < c.records().len() && (#[trigger] c.records()[j]).id == c.access_of(key)
                && c.records()[j].key == key && !c.records()[j].deleted,
{
    assert(c.store@.contains_key(key));
    let w = choose|i: int|
        0 <= i < c.list@.len() && (#[trigger] c.list@[i]).id == c.store@[key].access
            && c.list@[i].key == key && !c.list@[i].deleted;
    assert(c.records()[w].id == c.access_of(key));
}

/// A cache partition.
pub struct Lru<V> {
    store: HashMap<u64, Cache<V>>,
    list: List,
    evictor: Evictor,
    stats: Stats,
}

impl<V> Lru<V> {
    /// The entries, key to value.
    pub closed spec fn view(&self) -> Map<u64, V> {
        self.store@.map_values(|c: Cache<V>| c.value)
    }

    /// The recency chain, oldest record first.
    pub closed spec fn records(&self) -> Seq<Node> {
        self.list@
    }

    /// Identifier of the record that stands for `key`'s entry.
    pub closed spec fn access_of(&self, key: u64) -> u64 {
        self.store@[key].access
    }

    /// The identifier that the next record will get.
    pub closed spec fn next_id(&self) -> u64 {
        self.list.next_id()
    }

    pub closed spec fn limits(&self) -> Evictor {
        self.evictor
    }

    pub closed spec fn counters(&self) -> Stats {
        self.stats
    }

    pub closed spec fn wf(&self) -> bool {
        &&& self.list.wf()
        &&& linked(self.store@, self.list@)
    }

    /// An empty cache under the given limits.
    pub fn new(evictor: Evictor) -> (r: Lru<V>)
        ensures
            r.wf(),
            r@ == Map::<u64, V>::empty(),
            r.records() == Seq::<Node>::empty(),
            r.next_id() == 0,
            r.limits() == evictor,
            r.counters() == (Stats {
                n_gets: 0,
                n_sets: 0,
                n_evicted: 0,
                n_deleted: 0,
                n_older: 0,
                n_removed: 0,
            }),
    {
        let r = Lru {
            store: HashMap::new(),
            list: List::new(),
            evictor,
            stats: Stats { n_gets: 0, n_sets: 0, n_evicted: 0, n_deleted: 0, n_older: 0, n_removed: 0 },
        };
        proof {
            assert(r.store@.map_values(|c: Cache<V>| c.value) =~= Map::<u64, V>::empty());
        }
        r
    }

    /// The limits this cache is held to.
    pub fn evictor(&self) -> (r: Evictor)
        ensures
            r == self.limits(),
    {
        self.evictor
    }

    /// A snapshot of the counters.
    pub fn stats(&self) -> (r: Stats)
        ensures
            r == self.counters(),
    {
        self.stats
    }

    /// Number of entries.
    pub fn cur_entries(&self) -> (r: usize)
        requires
            self.wf(),
        ensures
            r == self@.len(),
            self@.dom().finite(),
    {
        proof {
            assert(self.store@.dom() =~= self@.dom());
        }
        self.store.len()
    }

    /// Number of records in the chain, live or tombstoned.
    pub fn num_records(&self) -> (r: usize)
        ensures
            r == self.records().len(),
    {
        self.list.len()
    }

    /// Store `value` under `key` at time `now`, as its most recent access.
    /// Hands back the value it replaces, whose record is tombstoned. Fails,
    /// changing nothing, only when record identifiers are used up.
    pub fn set_at(&mut self, key: u64, value: V, now: u64) -> (r: Result<Option<V>, Error>)
        requires
            old(self).wf(),
        ensures
            final(self).wf(),
            put(*old(self), *final(self), key, value, now, r),
    {
        let id = match self.list.prepend(key, now) {
            Ok(id) => id,
            Err(e) => {
                return Err(e);
            },
        };
        self.stats.n_sets = bump(self.stats.n_sets);
        let prev = self.store.insert(key, Cache { value, access: id });
        match prev {
            Some(c) => {
                let _ = self.list.delete(c.access);
                proof {
                    lemma_relink(old(self).store@, old(self).list@, key, Cache { value: self.store@[key].value, access: id }, now);
                    lemma_access_below_next(old(self).store@, old(self).list@, key, id);
                    assert(self@ =~= old(self)@.insert(key, self.store@[key].value));
                }
                Ok(Some(c.value))
            },
            None => {
                proof {
                    lemma_link_new(old(self).store@, old(self).list@, key, self.store@[key], now);
                    assert(self@ =~= old(self)@.insert(key, self.store@[key].value));
                }
                Ok(None)
            },
        }
    }
    /// Look `key` up at time `now`. On a hit the entry's access is recorded as
    /// the most recent, its former record is tombstoned, and a clone of the
    /// value is handed back. A miss changes nothing. Fails, changing nothing,
    /// only on a hit when record identifiers are used up.
    pub fn get_at(&mut self, key: u64, now: u64) -> (r: Result<Option<V>, Error>)
        where
            V: Clone,
        requires
            old(self).wf(),
        ensures
            final(self).wf(),
            got(*old(self), *final(self), key, now, r),
    {
        if !self.store.contains_key(&key) {
            return Ok(None);
        }
        let id = match self.list.prepend(key, now) {
            Ok(id) => id,
            Err(e) => {
                return Err(e);
            },
        };
        let c = match self.store.remove(&key) {
            Some(c) => c,
            None => {
                return Ok(None);
            },
        };
        let v = c.value.clone();
        let pa = c.access;
        self.store.insert(key, Cache { value: c.value, access: id });
        let _ = self.list.delete(pa);
        self.stats.n_gets = bump(self.stats.n_gets);
        proof {
            lemma_relink(old(self).store@, old(self).list@, key, self.store@[key], now);
            lemma_access_below_next(old(self).store@, old(self).list@, key, id);
            assert(self.store@ =~= old(self).store@.insert(key, self.store@[key]));
            assert(self@ =~= old(self)@);
        }
        Ok(Some(v))
    }

    /// Take `key` out of the cache, tombstoning its record, and hand back its
    /// value. On an absent key nothing changes.
    pub fn remove(&mut self, key: u64) -> (r: Option<V>)
        requires
            old(self).wf(),
        ensures
            final(self).wf(),
            final(self)@ == old(self)@.remove(key),
            r == old(self)@.get(key),
            !old(self)@.contains_key(key) ==> final(self).records() == old(self).records(),
            old(self)@.contains_key(key) ==> final(self).records() == tombstoned(
                old(self).records(),
                old(self).access_of(key),
            ),
            final(self).next_id() == old(self).next_id(),
            final(self).limits() == old(self).limits(),
            final(self).counters() == old(self).counters(),
    {
        match self.store.remove(&key) {
            Some(c) => {
                let _ = self.list.delete(c.access);
                proof {
                    lemma_unlink(old(self).store@, old(self).list@, key, old(self).list.next_id());
                    assert(self@ =~= old(self)@.remove(key));
                }
                Some(c.value)
            },
            None => {
                proof {
                    assert(self.store@ =~= old(self).store@);
                }
                None
            },
        }
    }
    /// One pass of the evictor at time `now`. The newest `skip` records are
    /// left alone; the others are visited oldest first and each is, in this
    /// order of priority: unlinked if tombstoned; unlinked with its entry if
    /// older than the age limit; unlinked with its entry while the pass still
    /// owes evictions (the entries above the count limit when it began);
    /// else kept.
    #[verifier::rlimit(30)]
    pub fn sweep(&mut self, now: u64, skip: usize)
        requires
            old(self).wf(),
        ensures
            final(self).wf(),
            final(self).next_id() == old(self).next_id(),
            final(self).limits() == old(self).limits(),
            forall|k: u64| #[trigger]
                final(self)@.contains_key(k) ==> old(self)@.contains_key(k) && final(self)@[k]
                    == old(self)@[k],
            ({
                let w = if skip < old(self).records().len() {
                    skip as int
                } else {
                    old(self).records().len() as int
                };
                let n = final(self).records().len() as int;
                &&& w <= n
                &&& final(self).records().subrange(n - w, n) == old(self).records().subrange(
                    old(self).records().len() - w,
                    old(self).records().len() as int,
                )
                &&& forall|j: int|
                    0 <= j < n - w ==> !(#[trigger] final(self).records()[j]).deleted && !is_expired(
                        final(self).limits(),
                        final(self).records()[j].born,
                        now,
                    )
            }),
            skip == 0 ==> final(self)@.len() <= final(self).limits().max_entries,
            final(self)@.len() > final(self).limits().max_entries ==> final(self).records().len() == (
            if skip < old(self).records().len() {
                skip as int
            } else {
                old(self).records().len() as int
            }),
            sweeps(*old(self), *final(self), now, skip),
    {
        let ghost old_store = self.store@;
        let ghost nid = self.list.next_id();
        let ghost ev = self.evictor;
        let nodes = self.list.take_nodes();
        let n = nodes.len();
        let limit: usize = if skip < n {
            n - skip
        } else {
            0
        };
        let mut budget = self.evictor.num_evicts(self.store.len());
        let ghost b0 = budget as nat;
        let ghost gone = Set::<u64>::empty();
        let ghost st0 = self.stats;
        let ghost cd: nat = 0;
        let ghost co: nat = 0;
        let ghost ce: nat = 0;
        let mut kept: Vec<Node> = Vec::new();
        let mut i: usize = 0;
        proof {
            assert(kept@ + nodes@.subrange(0, n as int) =~= nodes@);
        }
        while i < n
            invariant
                n == nodes@.len(),
                limit == (if skip < n { n - skip } else { 0 }),
                0 <= i <= n,
                self.list.next_id() == nid,
                self.evictor == ev,
                ids_sorted(nodes@, nid),
                ids_sorted(kept@, nid),
                forall|a: int, b: int|
                    0 <= a < kept@.len() && i <= b < n ==> kept@[a].id < nodes@[b].id,
                linked(self.store@, kept@ + nodes@.subrange(i as int, n as int)),
                forall|k: u64| #[trigger]
                    self.store@.contains_key(k) ==> old_store.contains_key(k) && self.store@[k]
                        == old_store[k],
                self.store@.len() <= ev.max_entries + budget,
                i <= limit && budget > 0 ==> kept@.len() == 0,
                i > limit && budget > 0 ==> kept@.len() == i - limit,
                kept@.len() >= (if i > limit { i - limit } else { 0 }),
                forall|j: int|
                    0 <= j < kept@.len() - (if i > limit { i - limit } else { 0 }) ==> !(
                    #[trigger] kept@[j]).deleted && !is_expired(ev, kept@[j].born, now),
                ({
                    let r = swept(ev, now, nodes@.subrange(i as int, n as int), limit - i, budget as nat);
                    swept(ev, now, nodes@, limit as int, b0) == (kept@ + r.0, gone + r.1)
                }),
                forall|k: u64| #[trigger] self.store@.contains_key(k) <==> old_store.contains_key(k) && !gone.contains(k),
                ({
                    let c = sweep_counts(ev, now, nodes@.subrange(i as int, n as int), limit - i, budget as nat);
                    sweep_counts(ev, now, nodes@, limit as int, b0) == (cd + c.0, co + c.1, ce + c.2)
                }),
                self.stats == (Stats {
                    n_deleted: plus(st0.n_deleted, cd),
                    n_older: plus(st0.n_older, co),
                    n_evicted: plus(st0.n_evicted, ce),
                    n_removed: plus(st0.n_removed, co + ce),
                    ..st0
                }),
                i > limit ==> kept@.subrange(kept@.len() - (i - limit), kept@.len() as int)
                    == nodes@.subrange(limit as int, i as int),
            decreases n - i,
        {
            let node = nodes[i];
            let ghost comb = kept@ + nodes@.subrange(i as int, n as int);
            let ghost p = kept@.len() as int;
            proof {
                assert(comb[p] == node);
                assert forall|a: int, b: int| 0 <= a < b < comb.len() implies comb[a].id < comb[b].id by {
                    if b < p {
                    } else if a < p {
                        assert(comb[b] == nodes@[i + b - p]);
                    } else {
                        assert(comb[a] == nodes@[i + a - p]);
                        assert(comb[b] == nodes@[i + b - p]);
                    }
                }
                assert forall|a: int| 0 <= a < comb.len() implies comb[a].id < nid by {
                    if a >= p {
                        assert(comb[a] == nodes@[i + a - p]);
                    }
                }
                lemma_drop_node(self.store@, comb, p, nid);
                assert(comb.remove(p) =~= kept@ + nodes@.subrange(i + 1, n as int));
                assert(nodes@.subrange(i as int, n as int).drop_first() =~= nodes@.subrange(i + 1, n as int));
                assert(nodes@.subrange(i as int, n as int)[0] == node);
            }
            let ghost kept0 = kept@;
            let ghost gone0 = gone;
            let ghost budget0 = budget as nat;
            if i >= limit || (!node.deleted && !self.evictor.expired(node.born, now) && budget == 0) {
                kept.push(node);
                proof {
                    assert(kept@ + nodes@.subrange(i + 1, n as int) =~= comb);
                    let rest = nodes@.subrange(i + 1, n as int);
                    if i >= limit {
                        assert(nodes@.subrange(i as int, n as int) =~= seq![node] + rest);
                        assert(kept0 + nodes@.subrange(i as int, n as int) =~= kept@ + rest);
                        assert(gone + Set::<u64>::empty() =~= gone);
                    } else {
                        let r1 = swept(ev, now, rest, limit - i - 1, budget as nat);
                        assert(kept0 + (seq![node] + r1.0) =~= kept@ + r1.0);
                    }
                    if i >= limit {
                        assert(kept@.subrange(kept@.len() - (i + 1 - limit), kept@.len() as int)
                            =~= nodes@.subrange(limit as int, i + 1));
                    }
                }
            } else if node.deleted {
                self.stats.n_deleted = bump(self.stats.n_deleted);
                proof {
                    cd = cd + 1;
                }
            } else {
                let ghost st = self.store@;
                proof {
                    st.lemma_remove_key_len(node.key);
                }
                let removed = self.store.remove(&node.key);
                if removed.is_some() {
                    self.stats.n_removed = bump(self.stats.n_removed);
                }
                if self.evictor.expired(node.born, now) {
                    self.stats.n_older = bump(self.stats.n_older);
                    proof {
                        co = co + 1;
                    }
                } else {
                    budget = budget - 1;
                    self.stats.n_evicted = bump(self.stats.n_evicted);
                    proof {
                        ce = ce + 1;
                    }
                }
                proof {
                    gone = gone.insert(node.key);
                    let rest = nodes@.subrange(i + 1, n as int);
                    let r1 = swept(ev, now, rest, limit - i - 1, budget as nat);
                    assert(gone0 + r1.1.insert(node.key) =~= gone + r1.1);
                }
            }
            i = i + 1;
        }
        proof {
            assert(kept@ + nodes@.subrange(n as int, n as int) =~= kept@);
            assert(gone + Set::<u64>::empty() =~= gone);
            if skip == 0 && budget > 0 {
                assert forall|k: u64| !self.store@.contains_key(k) by {
                    if self.store@.contains_key(k) {
                        let j = choose|i: int|
                            0 <= i < kept@.len() && (#[trigger] kept@[i]).id == self.store@[k].access
                                && kept@[i].key == k && !kept@[i].deleted;
                    }
                }
                assert(self.store@.dom() =~= Set::<u64>::empty());
            }
        }
        self.list.put_nodes(kept);
        proof {
            assert(self@.dom() =~= self.store@.dom());
            assert(old(self)@.dom() =~= old_store.dom());
            assert(self@ =~= old(self)@.remove_keys(gone));
            let w = if skip < n { skip as int } else { n as int };
            assert(self.records().subrange(self.records().len() - w, self.records().len() as int)
                =~= nodes@.subrange(n - w, n as int));
        }
    }
    /// Look `key` up, reading the clock for the access's timestamp. A miss
    /// changes nothing; on a hit, a clock that cannot be read gives `Fatal`
    /// and changes nothing; otherwise it is the lookup at the time read.
    pub fn get(&mut self, key: u64) -> (r: Result<Option<V>, Error>)
        where
            V: Clone,
        requires
            old(self).wf(),
        ensures
            final(self).wf(),
            !old(self)@.contains_key(key) ==> r == Ok::<Option<V>, Error>(None) && *final(self)
                == *old(self),
            r == Err::<Option<V>, Error>(Error::Fatal) && *final(self) == *old(self) || exists|now: u64|
                #[trigger] got(*old(self), *final(self), key, now, r),
    {
        if !self.store.contains_key(&key) {
            proof {
                assert(got(*old(self), *self, key, 0, Ok(None)));
            }
            return Ok(None);
        }
        match crate::clock::now_micros() {
            Ok(now) => self.get_at(key, now),
            Err(_) => Err(Error::Fatal),
        }
    }

    /// Store `value` under `key`, reading the clock for the access's
    /// timestamp. A clock that cannot be read gives `Fatal` and changes
    /// nothing; otherwise it is the store at the time read.
    pub fn set(&mut self, key: u64, value: V) -> (r: Result<Option<V>, Error>)
        requires
            old(self).wf(),
        ensures
            final(self).wf(),
            r == Err::<Option<V>, Error>(Error::Fatal) && *final(self) == *old(self) || exists|now: u64|
                #[trigger] put(*old(self), *final(self), key, value, now, r),
    {
        match crate::clock::now_micros() {
            Ok(now) => self.set_at(key, value, now),
            Err(_) => Err(Error::Fatal),
        }
    }

    /// One sweep of the evictor at the time the clock reads. A clock that
    /// cannot be read gives `Fatal` and changes nothing.
    pub fn evict(&mut self, skip: usize) -> (r: Result<(), Error>)
        requires
            old(self).wf(),
        ensures
            final(self).wf(),
            r is Err ==> r == Err::<(), Error>(Error::Fatal) && *final(self) == *old(self),
            r is Ok ==> exists|now: u64| #[trigger] sweeps(*old(self), *final(self), now, skip),
            r is Ok && skip == 0 ==> final(self)@.len() <= final(self).limits().max_entries,
    {
        match crate::clock::now_micros() {
            Ok(now) => {
                self.sweep(now, skip);
                proof {
                    assert(sweeps(*old(self), *self, now, skip));
                }
                Ok(())
            },
            Err(_) => Err(Error::Fatal),
        }
    }
}

} // verus!

//! The synthesis cache: waveforms by cache key, bounded in size with
//! least-recently-used eviction, and bounded in age by a time-to-live that is
//! checked when an entry is looked up.
//!
//! Time is a count of milliseconds from any fixed origin. A waveform sample
//! is a 32-bit float, carried as its IEEE-754 bit pattern.
use crate::error::TtsError;
use lru::LruCache;
use vstd::prelude::*;

verus! {

/// `lru::LruCache`, held opaque; what it holds is `lru_entries`.
#[verifier::external_type_specification]
#[verifier::external_body]
#[verifier::reject_recursive_types(K)]
#[verifier::reject_recursive_types(V)]
#[verifier::reject_recursive_types(S)]
pub struct ExLruCache<K, V, S>(LruCache<K, V, S>);

/// `lru::DefaultHasher`, the hasher type of an `LruCache`, held opaque.
#[verifier::external_type_specification]
#[verifier::external_body]
pub struct ExDefaultHasher(lru::DefaultHasher);

/// What the underlying LRU map holds: for each key, the insertion time and the
/// waveform.
pub type Store = LruCache<String, (u64, Vec<u32>)>;

/// The entries of an LRU map, most recently used first: key, insertion time,
/// waveform.
pub uninterp spec fn lru_entries(c: Store) -> Seq<(Seq<char>, u64, Seq<u32>)>;

/// The capacity an LRU map was made with.
pub uninterp spec fn lru_capacity(c: Store) -> nat;

/// Position of the entry with key `k`, if any.
pub open spec fn position(es: Seq<(Seq<char>, u64, Seq<u32>)>, k: Seq<char>) -> Option<int> {
    if exists|i: int| 0 <= i < es.len() && (#[trigger] es[i]).0 == k {
        Some(choose|i: int| 0 <= i < es.len() && (#[trigger] es[i]).0 == k)
    } else {
        None
    }
}

/// No two entries share a key.
pub open spec fn unique_keys(es: Seq<(Seq<char>, u64, Seq<u32>)>) -> bool {
    forall|i: int, j: int| 0 <= i < j < es.len() ==> (#[trigger] es[i]).0 != (#[trigger] es[j]).0
}

/// The entries after putting `(k, ts, a)`: the entry goes to the front and
/// replaces one with the same key; otherwise, at capacity, the least recently
/// used entry leaves.
pub open spec fn after_put(
    es: Seq<(Seq<char>, u64, Seq<u32>)>,
    cap: nat,
    k: Seq<char>,
    ts: u64,
    a: Seq<u32>,
) -> Seq<(Seq<char>, u64, Seq<u32>)> {
    seq![(k, ts, a)] + match position(es, k) {
        Some(i) => es.remove(i),
        None => if es.len() == cap {
            es.drop_last()
        } else {
            es
        },
    }
}

/// The entries after using the entry with key `k`: it moves to the front.
pub open spec fn after_use(es: Seq<(Seq<char>, u64, Seq<u32>)>, k: Seq<char>) -> Seq<
    (Seq<char>, u64, Seq<u32>),
> {
    match position(es, k) {
        Some(i) => seq![es[i]] + es.remove(i),
        None => es,
    }
}

/// The entries after removing the one with key `k`.
pub open spec fn after_remove(es: Seq<(Seq<char>, u64, Seq<u32>)>, k: Seq<char>) -> Seq<
    (Seq<char>, u64, Seq<u32>),
> {
    match position(es, k) {
        Some(i) => es.remove(i),
        None => es,
    }
}

/// The value stored under key `k`, if any.
pub open spec fn value_of(es: Seq<(Seq<char>, u64, Seq<u32>)>, k: Seq<char>) -> Option<
    (u64, Seq<u32>),
> {
    match position(es, k) {
        Some(i) => Some((es[i].1, es[i].2)),
        None => None,
    }
}

/// Relies on `LruCache::new` (lru): an empty map of capacity `cap`.
#[verifier::external_body]
fn lru_new(cap: usize) -> (r: Store)
    requires
        cap > 0,
    ensures
        lru_entries(r) == Seq::<(Seq<char>, u64, Seq<u32>)>::empty(),
        lru_capacity(r) == cap,
{
    LruCache::new(std::num::NonZeroUsize::new(cap).unwrap())
}

/// Relies on `LruCache::get` (lru): the value under `k`, whose entry moves to
/// the front.
#[verifier::external_body]
fn lru_get(c: &mut Store, k: &String) -> (r: Option<(u64, Vec<u32>)>)
    ensures
        lru_entries(*final(c)) == after_use(lru_entries(*old(c)), k@),
        lru_capacity(*final(c)) == lru_capacity(*old(c)),
        match r {
            Some(v) => value_of(lru_entries(*old(c)), k@) == Some((v.0, v.1@)),
            None => value_of(lru_entries(*old(c)), k@) is None,
        },
{
    c.get(k).cloned()
}

/// Relies on `LruCache::peek` (lru): the value under `k`; nothing moves.
#[verifier::external_body]
fn lru_peek(c: &Store, k: &String) -> (r: Option<(u64, Vec<u32>)>)
    ensures
        match r {
            Some(v) => value_of(lru_entries(*c), k@) == Some((v.0, v.1@)),
            None => value_of(lru_entries(*c), k@) is None,
        },
{
    c.peek(k).cloned()
}

/// Relies on `LruCache::pop` (lru): removes the entry under `k`.
#[verifier::external_body]
fn lru_pop(c: &mut Store, k: &String) -> (r: Option<(u64, Vec<u32>)>)
    ensures
        lru_entries(*final(c)) == after_remove(lru_entries(*old(c)), k@),
        lru_capacity(*final(c)) == lru_capacity(*old(c)),
        r is Some <==> position(lru_entries(*old(c)), k@) is Some,
{
    c.pop(k)
}

/// Relies on `LruCache::put` (lru): inserts or replaces the entry under `k`
/// at the front, evicting the least recently used entry when a new key
/// arrives at capacity.
#[verifier::external_body]
fn lru_put(c: &mut Store, k: String, v: (u64, Vec<u32>)) -> (r: Option<(u64, Vec<u32>)>)
    ensures
        lru_entries(*final(c)) == after_put(
            lru_entries(*old(c)),
            lru_capacity(*old(c)),
            k@,
            v.0,
            v.1@,
        ),
        lru_capacity(*final(c)) == lru_capacity(*old(c)),
        r is Some <==> position(lru_entries(*old(c)), k@) is Some,
{
    c.put(k, v)
}

/// Relies on `LruCache::len` (lru): the number of entries.
#[verifier::external_body]
fn lru_len(c: &Store) -> (r: usize)
    ensures
        r == lru_entries(*c).len(),
{
    c.len()
}

/// Relies on `LruCache::contains` (lru): whether `k` has an entry; nothing
/// moves.
#[verifier::external_body]
fn lru_contains(c: &Store, k: &String) -> (r: bool)
    ensures
        r == position(lru_entries(*c), k@) is Some,
{
    c.contains(k)
}

/// Default number of entries.
pub const CACHE_CAPACITY: usize = 50;

/// Default time-to-live: one hour, in milliseconds.
pub const CACHE_TTL_MS: u64 = 3600000;

/// An entry inserted at `ts` may still be served at `now`: less than `ttl`
/// has elapsed (a clock read earlier than `ts` counts as no time elapsed).
pub open spec fn is_fresh(ts: u64, now: u64, ttl: u64) -> bool {
    now < ts || now - ts < ttl
}

/// The entries after looking up `k` at `now`: a fresh entry moves to the
/// front, an expired one is removed.
pub open spec fn after_lookup(
    es: Seq<(Seq<char>, u64, Seq<u32>)>,
    k: Seq<char>,
    now: u64,
    ttl: u64,
) -> Seq<(Seq<char>, u64, Seq<u32>)> {
    match position(es, k) {
        Some(i) => if is_fresh(es[i].1, now, ttl) {
            seq![es[i]] + es.remove(i)
        } else {
            es.remove(i)
        },
        None => es,
    }
}

/// What looking up `k` at `now` returns: the waveform of a fresh entry.
pub open spec fn lookup_result(
    es: Seq<(Seq<char>, u64, Seq<u32>)>,
    k: Seq<char>,
    now: u64,
    ttl: u64,
) -> Option<Seq<u32>> {
    match position(es, k) {
        Some(i) => if is_fresh(es[i].1, now, ttl) {
            Some(es[i].2)
        } else {
            None
        },
        None => None,
    }
}

proof fn lemma_position(es: Seq<(Seq<char>, u64, Seq<u32>)>, k: Seq<char>)
    requires
        unique_keys(es),
    ensures
        match position(es, k) {
            Some(i) => 0 <= i < es.len() && es[i].0 == k && forall|j: int|
                0 <= j < es.len() && j != i ==> (#[trigger] es[j]).0 != k,
            None => forall|j: int| 0 <= j < es.len() ==> (#[trigger] es[j]).0 != k,
        },
{
    if let Some(i) = position(es, k) {
        assert forall|j: int| 0 <= j < es.len() && j != i implies (#[trigger] es[j]).0 != k by {
            if j < i {
                assert(es[j].0 != es[i].0);
            } else {
                assert(es[i].0 != es[j].0);
            }
        }
    }
}

proof fn lemma_front_position(e: (Seq<char>, u64, Seq<u32>), rest: Seq<(Seq<char>, u64, Seq<u32>)>)
    requires
        unique_keys(seq![e] + rest),
    ensures
        position(seq![e] + rest, e.0) == Some(0int),
{
    let es = seq![e] + rest;
    assert(es[0].0 == e.0);
    lemma_position(es, e.0);
}

proof fn lemma_put_wf(
    es: Seq<(Seq<char>, u64, Seq<u32>)>,
    cap: nat,
    k: Seq<char>,
    ts: u64,
    a: Seq<u32>,
)
    requires
        unique_keys(es),
        es.len() <= cap,
        cap > 0,
    ensures
        unique_keys(after_put(es, cap, k, ts, a)),
        after_put(es, cap, k, ts, a).len() <= cap,
        position(after_put(es, cap, k, ts, a), k) == Some(0int),
        after_put(es, cap, k, ts, a)[0] == (k, ts, a),
{
    lemma_position(es, k);
    let r = after_put(es, cap, k, ts, a);
    let rest = r.subrange(1, r.len() as int);
    assert forall|j: int| 0 <= j < rest.len() implies (#[trigger] rest[j]).0 != k by {
        match position(es, k) {
            Some(i) => {
                if j < i {
                    assert(rest[j] == es[j]);
                } else {
                    assert(rest[j] == es[j + 1]);
                }
            },
            None => {
                assert(rest[j] == es[j]);
            },
        }
    }
    assert forall|i: int, j: int| 0 <= i < j < r.len() implies (#[trigger] r[i]).0 != (
    #[trigger] r[j]).0 by {
        if i == 0 {
            assert(r[j] == rest[j - 1]);
        } else {
            match position(es, k) {
                Some(p) => {
                    let ii = if i - 1 < p { i - 1 } else { i };
                    let jj = if j - 1 < p { j - 1 } else { j };
                    assert(r[i] == es[ii]);
                    assert(r[j] == es[jj]);
                },
                None => {
                    assert(r[i] == es[i - 1]);
                    assert(r[j] == es[j - 1]);
                },
            }
        }
    }
    lemma_front_position((k, ts, a), rest);
    assert(r == seq![(k, ts, a)] + rest);
}

proof fn lemma_remove_wf(es: Seq<(Seq<char>, u64, Seq<u32>)>, i: int)
    requires
        unique_keys(es),
        0 <= i < es.len(),
    ensures
        unique_keys(es.remove(i)),
        unique_keys(seq![es[i]] + es.remove(i)),
{
    let r = es.remove(i);
    assert forall|a: int, b: int| 0 <= a < b < r.len() implies (#[trigger] r[a]).0 != (
    #[trigger] r[b]).0 by {
        let aa = if a < i { a } else { a + 1 };
        let bb = if b < i { b } else { b + 1 };
        assert(r[a] == es[aa]);
        assert(r[b] == es[bb]);
    }
    let f = seq![es[i]] + r;
    assert forall|a: int, b: int| 0 <= a < b < f.len() implies (#[trigger] f[a]).0 != (
    #[trigger] f[b]).0 by {
        if a == 0 {
            let bb = if b - 1 < i { b - 1 } else { b };
            assert(f[b] == es[bb]);
        } else {
            assert(f[a] == r[a - 1]);
            assert(f[b] == r[b - 1]);
        }
    }
}

/// Putting three distinct keys into an empty map of capacity two leaves two
/// entries: the first key, the least recently used, is the one evicted.
pub proof fn lemma_capacity_eviction(
    k1: Seq<char>,
    k2: Seq<char>,
    k3: Seq<char>,
    t1: u64,
    t2: u64,
    t3: u64,
    a1: Seq<u32>,
    a2: Seq<u32>,
    a3: Seq<u32>,
)
    requires
        k1 != k2,
        k1 != k3,
        k2 != k3,
    ensures
        ({
            let e1 = after_put(Seq::empty(), 2, k1, t1, a1);
            let e2 = after_put(e1, 2, k2, t2, a2);
            let e3 = after_put(e2, 2, k3, t3, a3);
            &&& e3.len() == 2
            &&& position(e3, k1) is None
            &&& value_of(e3, k2) == Some((t2, a2))
            &&& value_of(e3, k3) == Some((t3, a3))
        }),
{
    let e0 = Seq::<(Seq<char>, u64, Seq<u32>)>::empty();
    lemma_put_wf(e0, 2, k1, t1, a1);
    let e1 = after_put(e0, 2, k1, t1, a1);
    lemma_position(e1, k2);
    lemma_put_wf(e1, 2, k2, t2, a2);
    let e2 = after_put(e1, 2, k2, t2, a2);
    assert(e2 == seq![(k2, t2, a2), (k1, t1, a1)]);
    lemma_position(e2, k3);
    lemma_put_wf(e2, 2, k3, t3, a3);
    let e3 = after_put(e2, 2, k3, t3, a3);
    assert(e3 == seq![(k3, t3, a3), (k2, t2, a2)]);
    lemma_position(e3, k1);
    lemma_position(e3, k2);
    assert(e3[1].0 == k2);
}

/// An entry looked up once its time-to-live has elapsed is a miss and is
/// removed; storing the regenerated waveform then gives the entry the new
/// time.
pub proof fn lemma_expired_entry_regenerated(
    es: Seq<(Seq<char>, u64, Seq<u32>)>,
    cap: nat,
    k: Seq<char>,
    inserted: u64,
    a: Seq<u32>,
    now: u64,
    ttl: u64,
    regenerated: Seq<u32>,
)
    requires
        unique_keys(es),
        es.len() <= cap,
        cap > 0,
        inserted <= now,
        now - inserted >= ttl,
    ensures
        ({
            let e1 = after_put(es, cap, k, inserted, a);
            let e2 = after_lookup(e1, k, now, ttl);
            &&& lookup_result(e1, k, now, ttl) is None
            &&& position(e2, k) is None
            &&& value_of(after_put(e2, cap, k, now, regenerated), k) == Some((now, regenerated))
        }),
{
    lemma_put_wf(es, cap, k, inserted, a);
    let e1 = after_put(es, cap, k, inserted, a);
    lemma_remove_wf(e1, 0);
    let e2 = after_lookup(e1, k, now, ttl);
    assert(e2 == e1.remove(0));
    lemma_position(e1, k);
    assert forall|j: int| 0 <= j < e2.len() implies (#[trigger] e2[j]).0 != k by {
        assert(e2[j] == e1[j + 1]);
    }
    lemma_position(e2, k);
    lemma_put_wf(e2, cap, k, now, regenerated);
}

/// Synthesized waveforms by cache key, with capacity-based (least recently
/// used) and age-based (time-to-live) eviction.
pub struct SynthesisCache {
    store: Store,
    ttl: u64,
}

impl View for SynthesisCache {
    /// The entries, most recently used first.
    type V = Seq<(Seq<char>, u64, Seq<u32>)>;

    closed spec fn view(&self) -> Seq<(Seq<char>, u64, Seq<u32>)> {
        lru_entries(self.store)
    }
}

impl SynthesisCache {
    /// The number of entries the cache holds at most.
    pub closed spec fn capacity(&self) -> nat {
        lru_capacity(self.store)
    }

    /// How long, in milliseconds, an entry may be served after its insertion.
    pub closed spec fn ttl(&self) -> u64 {
        self.ttl
    }

    pub open spec fn wf(&self) -> bool {
        &&& unique_keys(self@)
        &&& self@.len() <= self.capacity()
        &&& self.capacity() > 0
    }

    /// An empty cache of `capacity` entries whose entries live `ttl`
    /// milliseconds.
    pub fn new(capacity: usize, ttl: u64) -> (r: SynthesisCache)
        requires
            capacity > 0,
        ensures
            r.wf(),
            r@ == Seq::<(Seq<char>, u64, Seq<u32>)>::empty(),
            r.capacity() == capacity,
            r.ttl() == ttl,
    {
        SynthesisCache { store: lru_new(capacity), ttl }
    }

    /// The waveform stored under `key`, if its entry is still fresh at `now`;
    /// the entry then becomes the most recently used. An expired entry is
    /// removed.
    pub fn lookup(&mut self, key: &String, now: u64) -> (r: Option<Vec<u32>>)
        requires
            old(self).wf(),
        ensures
            final(self).wf(),
            final(self).capacity() == old(self).capacity(),
            final(self).ttl() == old(self).ttl(),
            final(self)@ == after_lookup(old(self)@, key@, now, old(self).ttl()),
            match r {
                Some(a) => lookup_result(old(self)@, key@, now, old(self).ttl()) == Some(a@),
                None => lookup_result(old(self)@, key@, now, old(self).ttl()) is None,
            },
    {
        let ghost es = self@;
        proof {
            lemma_position(es, key@);
        }
        match lru_get(&mut self.store, key) {
            Some((ts, audio)) => {
                let ghost i = position(es, key@)->0;
                proof {
                    lemma_remove_wf(es, i);
                    lemma_front_position(es[i], es.remove(i));
                    assert((seq![es[i]] + es.remove(i)).remove(0) =~= es.remove(i));
                }
                if now < ts || now - ts < self.ttl {
                    Some(audio)
                } else {
                    lru_pop(&mut self.store, key);
                    None
                }
            },
            None => None,
        }
    }

    /// Stores `audio` under `key` as inserted at `now`, as the most recently
    /// used entry. An entry with the same key is replaced; otherwise, when the
    /// cache is full, the least recently used entry is evicted.
    pub fn insert(&mut self, key: String, audio: Vec<u32>, now: u64)
        requires
            old(self).wf(),
        ensures
            final(self).wf(),
            final(self).capacity() == old(self).capacity(),
            final(self).ttl() == old(self).ttl(),
            final(self)@ == after_put(old(self)@, old(self).capacity(), key@, now, audio@),
    {
        proof {
            lemma_put_wf(self@, self.capacity(), key@, now, audio@);
        }
        lru_put(&mut self.store, key, (now, audio));
    }

    /// Hands back the outcome of a synthesis, storing its waveform under
    /// `key` as inserted at `now` when it succeeded; a failure leaves the
    /// cache as it was.
    pub fn store_result(&mut self, key: String, result: Result<Vec<u32>, TtsError>, now: u64) -> (r:
        Result<Vec<u32>, TtsError>)
        requires
            old(self).wf(),
        ensures
            final(self).wf(),
            final(self).capacity() == old(self).capacity(),
            final(self).ttl() == old(self).ttl(),
            match result {
                Ok(a) => r matches Ok(b) && b@ == a@ && final(self)@ == after_put(
                    old(self)@,
                    old(self).capacity(),
                    key@,
                    now,
                    a@,
                ),
                Err(e) => r == Err::<Vec<u32>, TtsError>(e) && final(self)@ == old(self)@,
            },
    {
        match result {
            Ok(audio) => {
                let mut copy: Vec<u32> = Vec::new();
                let mut i: usize = 0;
                while i < audio.len()
                    invariant
                        i <= audio.len(),
                        copy@ == audio@.subrange(0, i as int),
                    decreases audio.len() - i,
                {
                    copy.push(audio[i]);
                    i = i + 1;
                }
                assert(audio@.subrange(0, audio.len() as int) == audio@);
                self.insert(key, copy, now);
                Ok(audio)
            },
            Err(e) => Err(e),
        }
    }

    /// The number of entries.
    pub fn len(&self) -> (r: usize)
        ensures
            r == self@.len(),
    {
        lru_len(&self.store)
    }

    /// Whether `key` has an entry, fresh or not; nothing moves.
    pub fn contains(&self, key: &String) -> (r: bool)
        ensures
            r == position(self@, key@) is Some,
    {
        lru_contains(&self.store, key)
    }

    /// When the entry under `key` was inserted, if there is one; nothing
    /// moves.
    pub fn inserted_at(&self, key: &String) -> (r: Option<u64>)
        ensures
            match r {
                Some(ts) => value_of(self@, key@) matches Some(v) && v.0 == ts,
                None => value_of(self@, key@) is None,
            },
    {
        match lru_peek(&self.store, key) {
            Some((ts, _)) => Some(ts),
            None => None,
        }
    }
}

impl Default for SynthesisCache {
    /// A cache of 50 entries that live one hour.
    fn default() -> (r: SynthesisCache)
        ensures
            r.wf(),
            r@ == Seq::<(Seq<char>, u64, Seq<u32>)>::empty(),
            r.capacity() == CACHE_CAPACITY,
            r.ttl() == CACHE_TTL_MS,
    {
        SynthesisCache::new(CACHE_CAPACITY, CACHE_TTL_MS)
    }
}

} // verus!

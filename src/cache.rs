//! A bounded least-recently-used store from handles to image bytes.
//!
//! Its contents are modelled as a sequence of `(handle, bytes)` pairs, least
//! recently used first.
use lru::LruCache;
use std::num::NonZeroUsize;
use vstd::prelude::*;

verus! {

/// Whether some entry has key `k`.
pub open spec fn has_key(e: Seq<(Seq<char>, Seq<u8>)>, k: Seq<char>) -> bool {
    exists|i: int| 0 <= i < e.len() && #[trigger] e[i].0 == k
}

/// The position of the entry with key `k`.
pub open spec fn key_index(e: Seq<(Seq<char>, Seq<u8>)>, k: Seq<char>) -> int
    recommends
        has_key(e, k),
{
    choose|i: int| 0 <= i < e.len() && #[trigger] e[i].0 == k
}

/// The bytes held under `k`, if any.
pub open spec fn lookup(e: Seq<(Seq<char>, Seq<u8>)>, k: Seq<char>) -> Option<Seq<u8>> {
    if has_key(e, k) {
        Some(e[key_index(e, k)].1)
    } else {
        None
    }
}

/// Keys are distinct and there are at most `cap` of them.
pub open spec fn entries_wf(e: Seq<(Seq<char>, Seq<u8>)>, cap: nat) -> bool {
    &&& 0 < cap
    &&& e.len() <= cap
    &&& forall|i: int, j: int| 0 <= i < j < e.len() ==> #[trigger] e[i].0 != #[trigger] e[j].0
}

/// Contents after `put(k, v)`: an existing entry for `k` is replaced and moved
/// to the most recent end; otherwise, when the store is full, the least
/// recently used entry leaves to make room.
pub open spec fn put_entries(
    e: Seq<(Seq<char>, Seq<u8>)>,
    cap: nat,
    k: Seq<char>,
    v: Seq<u8>,
) -> Seq<(Seq<char>, Seq<u8>)> {
    if has_key(e, k) {
        e.remove(key_index(e, k)).push((k, v))
    } else if e.len() == cap {
        e.drop_first().push((k, v))
    } else {
        e.push((k, v))
    }
}

/// Contents after `get(k)`: a present entry moves to the most recent end.
pub open spec fn get_entries(e: Seq<(Seq<char>, Seq<u8>)>, k: Seq<char>) -> Seq<
    (Seq<char>, Seq<u8>),
> {
    if has_key(e, k) {
        e.remove(key_index(e, k)).push(e[key_index(e, k)])
    } else {
        e
    }
}

/// With distinct keys, the entry at `i` is the one `lookup` finds.
pub proof fn lemma_lookup_at(e: Seq<(Seq<char>, Seq<u8>)>, cap: nat, i: int)
    requires
        entries_wf(e, cap),
        0 <= i < e.len(),
    ensures
        has_key(e, e[i].0),
        key_index(e, e[i].0) == i,
        lookup(e, e[i].0) == Some(e[i].1),
{
    assert(has_key(e, e[i].0));
    let j = key_index(e, e[i].0);
    if j < i {
        assert(e[j].0 != e[i].0);
    } else if i < j {
        assert(e[i].0 != e[j].0);
    }
}

/// `put` keeps the keys distinct and the size within the capacity, and the new
/// value is then found under its key.
pub proof fn lemma_put_wf(e: Seq<(Seq<char>, Seq<u8>)>, cap: nat, k: Seq<char>, v: Seq<u8>)
    requires
        entries_wf(e, cap),
    ensures
        entries_wf(put_entries(e, cap, k, v), cap),
        lookup(put_entries(e, cap, k, v), k) == Some(v),
        forall|h: Seq<char>|
            h != k && has_key(#[trigger] put_entries(e, cap, k, v), h) ==> has_key(e, h)
                && lookup(put_entries(e, cap, k, v), h) == lookup(e, h),
{
    let r = put_entries(e, cap, k, v);
    // every entry but the last comes from `e`, at position `src(j)`
    let ghost src: spec_fn(int) -> int;
    if has_key(e, k) {
        let i = key_index(e, k);
        src = |j: int| if j < i { j } else { j + 1 };
    } else if e.len() == cap {
        src = |j: int| j + 1;
    } else {
        src = |j: int| j;
    }
    assert(r.last() == (k, v));
    assert forall|j: int| 0 <= j < r.len() - 1 implies 0 <= src(j) < e.len() && #[trigger] r[j]
        == e[src(j)] && e[src(j)].0 != k by {
        if has_key(e, k) {
            let i = key_index(e, k);
            if src(j) < i {
                assert(e[src(j)].0 != e[i].0);
            } else {
                assert(e[i].0 != e[src(j)].0);
            }
        } else {
            if e[src(j)].0 == k {
                assert(has_key(e, k));
            }
        }
    }
    assert forall|a: int, b: int| 0 <= a < b < r.len() implies #[trigger] r[a].0
        != #[trigger] r[b].0 by {
        if b < r.len() - 1 {
            assert(src(a) < src(b));
            assert(e[src(a)].0 != e[src(b)].0);
        }
    }
    assert(entries_wf(r, cap));
    lemma_lookup_at(r, cap, r.len() - 1);
    assert forall|h: Seq<char>| h != k && has_key(#[trigger] put_entries(e, cap, k, v), h) implies has_key(e, h)
        && lookup(put_entries(e, cap, k, v), h) == lookup(e, h) by {
        let j = key_index(r, h);
        assert(j < r.len() - 1);
        assert(r[j] == e[src(j)]);
        lemma_lookup_at(r, cap, j);
        lemma_lookup_at(e, cap, src(j));
    }
}

/// `get` keeps the keys, their values and the size; only the order changes.
pub proof fn lemma_get_wf(e: Seq<(Seq<char>, Seq<u8>)>, cap: nat, k: Seq<char>)
    requires
        entries_wf(e, cap),
    ensures
        entries_wf(get_entries(e, k), cap),
        get_entries(e, k).len() == e.len(),
        forall|h: Seq<char>|
            has_key(#[trigger] get_entries(e, k), h) == has_key(e, h) && lookup(
                get_entries(e, k),
                h,
            ) == lookup(e, h),
{
    let r = get_entries(e, k);
    if has_key(e, k) {
        let i = key_index(e, k);
        let src = |j: int|
            if j == r.len() - 1 {
                i
            } else if j < i {
                j
            } else {
                j + 1
            };
        assert forall|j: int| 0 <= j < r.len() implies 0 <= src(j) < e.len() && #[trigger] r[j]
            == e[src(j)] by {}
        assert forall|a: int, b: int| 0 <= a < b < r.len() implies #[trigger] r[a].0
            != #[trigger] r[b].0 by {
            assert(r[a] == e[src(a)]);
            assert(r[b] == e[src(b)]);
            assert(src(a) != src(b));
            if src(a) < src(b) {
                assert(e[src(a)].0 != e[src(b)].0);
            } else {
                assert(e[src(b)].0 != e[src(a)].0);
            }
        }
        assert forall|h: Seq<char>| has_key(#[trigger] get_entries(e, k), h) == has_key(e, h)
            && lookup(get_entries(e, k), h) == lookup(e, h) by {
            if has_key(r, h) {
                let j = key_index(r, h);
                assert(r[j] == e[src(j)]);
                lemma_lookup_at(r, cap, j);
                lemma_lookup_at(e, cap, src(j));
            }
            if has_key(e, h) {
                let a = key_index(e, h);
                let j = if a == i {
                    r.len() - 1
                } else if a < i {
                    a
                } else {
                    a - 1
                };
                assert(r[j] == e[a]);
                lemma_lookup_at(r, cap, j);
                lemma_lookup_at(e, cap, a);
            }
        }
    }
}

/// When the cache is full, putting a handle it does not hold evicts exactly the
/// least recently used entry; every other entry stays with its bytes.
pub proof fn lemma_overflow_evicts_lru(
    e: Seq<(Seq<char>, Seq<u8>)>,
    cap: nat,
    k: Seq<char>,
    v: Seq<u8>,
)
    requires
        entries_wf(e, cap),
        e.len() == cap,
        !has_key(e, k),
    ensures
        put_entries(e, cap, k, v) == e.drop_first().push((k, v)),
        !has_key(put_entries(e, cap, k, v), e[0].0),
        forall|j: int|
            1 <= j < e.len() ==> lookup(put_entries(e, cap, k, v), #[trigger] e[j].0) == Some(
                e[j].1,
            ),
        lookup(put_entries(e, cap, k, v), k) == Some(v),
{
    let r = put_entries(e, cap, k, v);
    lemma_put_wf(e, cap, k, v);
    if has_key(r, e[0].0) {
        let j = key_index(r, e[0].0);
        if j < r.len() - 1 {
            assert(r[j] == e[j + 1]);
            assert(e[0].0 != e[j + 1].0);
        } else {
            assert(e[0].0 == k);
        }
    }
    assert forall|j: int| 1 <= j < e.len() implies lookup(
        put_entries(e, cap, k, v),
        #[trigger] e[j].0,
    ) == Some(e[j].1) by {
        assert(r[j - 1] == e[j]);
        assert(has_key(r, e[j].0));
        assert(e[j].0 != k);
        lemma_lookup_at(e, cap, j);
    }
}

/// The contents after putting each pair of `pairs` in order, starting from `e`.
pub open spec fn put_all(
    e: Seq<(Seq<char>, Seq<u8>)>,
    cap: nat,
    pairs: Seq<(Seq<char>, Seq<u8>)>,
) -> Seq<(Seq<char>, Seq<u8>)>
    decreases pairs.len(),
{
    if pairs.len() == 0 {
        e
    } else {
        let last = pairs.last();
        put_entries(put_all(e, cap, pairs.drop_last()), cap, last.0, last.1)
    }
}

proof fn lemma_put_all_within_capacity(cap: nat, pairs: Seq<(Seq<char>, Seq<u8>)>)
    requires
        entries_wf(pairs, cap),
    ensures
        put_all(Seq::empty(), cap, pairs) == pairs,
    decreases pairs.len(),
{
    if pairs.len() > 0 {
        let front = pairs.drop_last();
        let n = front.len() as int;
        assert(entries_wf(front, cap));
        lemma_put_all_within_capacity(cap, front);
        if has_key(front, pairs.last().0) {
            let i = key_index(front, pairs.last().0);
            assert(pairs[i].0 != pairs[n].0);
        }
        assert(front.push(pairs.last()) =~= pairs);
    }
}

/// Putting `cap + 1` distinct handles, in order, into an empty cache of
/// capacity `cap` evicts exactly the first of them, the least recently used
/// at the point of overflow, and keeps the others in order.
pub proof fn lemma_distinct_puts_overflow(cap: nat, pairs: Seq<(Seq<char>, Seq<u8>)>)
    requires
        cap > 0,
        pairs.len() == cap + 1,
        forall|i: int, j: int|
            0 <= i < j < pairs.len() ==> #[trigger] pairs[i].0 != #[trigger] pairs[j].0,
    ensures
        put_all(Seq::empty(), cap, pairs) == pairs.drop_first(),
        !has_key(put_all(Seq::empty(), cap, pairs), pairs[0].0),
{
    let front = pairs.drop_last();
    let k = pairs.last().0;
    assert(entries_wf(front, cap));
    lemma_put_all_within_capacity(cap, front);
    if has_key(front, k) {
        let i = key_index(front, k);
        assert(pairs[i].0 != pairs[cap as int].0);
    }
    lemma_overflow_evicts_lru(front, cap, k, pairs.last().1);
    assert(front.drop_first().push((k, pairs.last().1)) =~= pairs.drop_first());
}

/// Reading a held handle makes it the most recently used: when the cache is
/// full, the next put of a new handle keeps it and evicts the least recently
/// used of the other entries instead.
pub proof fn lemma_get_refreshes(
    e: Seq<(Seq<char>, Seq<u8>)>,
    cap: nat,
    k: Seq<char>,
    k2: Seq<char>,
    v: Seq<u8>,
)
    requires
        entries_wf(e, cap),
        e.len() == cap,
        cap >= 2,
        has_key(e, k),
        !has_key(e, k2),
    ensures
        get_entries(e, k).last().0 == k,
        has_key(put_entries(get_entries(e, k), cap, k2, v), k),
        !has_key(
            put_entries(get_entries(e, k), cap, k2, v),
            if e[0].0 == k {
                e[1].0
            } else {
                e[0].0
            },
        ),
{
    let g = get_entries(e, k);
    lemma_get_wf(e, cap, k);
    assert(has_key(g, k2) == has_key(e, k2));
    lemma_overflow_evicts_lru(g, cap, k2, v);
    lemma_lookup_at(e, cap, 0);
    let i = key_index(e, k);
    assert(g[g.len() - 1] == e[i]);
    assert(lookup(put_entries(g, cap, k2, v), g[g.len() - 1].0) is Some);
    if e[0].0 == k {
        assert(g[0] == e[1]);
    } else {
        assert(i != 0);
        assert(g[0] == e[0]);
    }
}

/// A step of a run of the cache.
pub enum CacheOp {
    Put(Seq<char>, Seq<u8>),
    Get(Seq<char>),
}

/// The contents after running `ops` in order, starting from `e`.
pub open spec fn apply_ops(e: Seq<(Seq<char>, Seq<u8>)>, cap: nat, ops: Seq<CacheOp>) -> Seq<
    (Seq<char>, Seq<u8>),
>
    decreases ops.len(),
{
    if ops.len() == 0 {
        e
    } else {
        let next = match ops[0] {
            CacheOp::Put(k, v) => put_entries(e, cap, k, v),
            CacheOp::Get(k) => get_entries(e, k),
        };
        apply_ops(next, cap, ops.drop_first())
    }
}

/// Whether `op` puts under `h`.
pub open spec fn is_put_of(op: CacheOp, h: Seq<char>) -> bool {
    match op {
        CacheOp::Put(k, _) => k == h,
        CacheOp::Get(_) => false,
    }
}

/// Whether some step of `ops` puts under `h`.
pub open spec fn puts_key(ops: Seq<CacheOp>, h: Seq<char>) -> bool {
    exists|i: int| 0 <= i < ops.len() && is_put_of(#[trigger] ops[i], h)
}

proof fn lemma_ops_keep_value(
    e: Seq<(Seq<char>, Seq<u8>)>,
    cap: nat,
    ops: Seq<CacheOp>,
    h: Seq<char>,
    b: Seq<u8>,
)
    requires
        entries_wf(e, cap),
        has_key(e, h) ==> lookup(e, h) == Some(b),
        !puts_key(ops, h),
    ensures
        entries_wf(apply_ops(e, cap, ops), cap),
        has_key(apply_ops(e, cap, ops), h) ==> lookup(apply_ops(e, cap, ops), h) == Some(b),
    decreases ops.len(),
{
    if ops.len() > 0 {
        let next = match ops[0] {
            CacheOp::Put(k, v) => put_entries(e, cap, k, v),
            CacheOp::Get(k) => get_entries(e, k),
        };
        match ops[0] {
            CacheOp::Put(k, v) => {
                assert(is_put_of(ops[0], h) == (k == h));
                lemma_put_wf(e, cap, k, v);
            },
            CacheOp::Get(k) => {
                lemma_get_wf(e, cap, k);
            },
        }
        let rest = ops.drop_first();
        assert(!puts_key(rest, h)) by {
            if puts_key(rest, h) {
                let i = choose|i: int|
                    0 <= i < rest.len() && is_put_of(#[trigger] rest[i], h);
                assert(ops[i + 1] == rest[i]);
            }
        }
        lemma_ops_keep_value(next, cap, rest, h, b);
    }
}

/// After `put(h, b)`, a `get(h)` returns exactly `b`, however many puts under
/// other handles and gets came between, for as long as `h` has not been evicted.
pub proof fn lemma_get_after_put(
    e: Seq<(Seq<char>, Seq<u8>)>,
    cap: nat,
    h: Seq<char>,
    b: Seq<u8>,
    ops: Seq<CacheOp>,
)
    requires
        entries_wf(e, cap),
        !puts_key(ops, h),
    ensures
        lookup(put_entries(e, cap, h, b), h) == Some(b),
        has_key(apply_ops(put_entries(e, cap, h, b), cap, ops), h) ==> lookup(
            apply_ops(put_entries(e, cap, h, b), cap, ops),
            h,
        ) == Some(b),
{
    lemma_put_wf(e, cap, h, b);
    lemma_ops_keep_value(put_entries(e, cap, h, b), cap, ops, h, b);
}

#[verifier::external_type_specification]
#[verifier::external_body]
#[verifier::reject_recursive_types(K)]
#[verifier::reject_recursive_types(V)]
#[verifier::reject_recursive_types(S)]
pub struct ExLruCache<K, V, S>(LruCache<K, V, S>);

#[verifier::external_type_specification]
#[verifier::external_body]
pub struct ExDefaultHasher(lru::DefaultHasher);

/// The entries of an `LruCache`, least recently used first.
pub uninterp spec fn lru_entries(c: LruCache<String, Vec<u8>>) -> Seq<(Seq<char>, Seq<u8>)>;

/// The capacity an `LruCache` was made with.
pub uninterp spec fn lru_capacity(c: LruCache<String, Vec<u8>>) -> nat;

/// Relies on `lru::LruCache::new`: an empty cache bounded by `cap`.
#[verifier::external_body]
fn lru_new(cap: usize) -> (r: LruCache<String, Vec<u8>>)
    requires
        cap > 0,
    ensures
        lru_entries(r) == Seq::<(Seq<char>, Seq<u8>)>::empty(),
        lru_capacity(r) == cap,
{
    LruCache::new(NonZeroUsize::new(cap).unwrap())
}

/// Relies on `lru::LruCache::put`: an entry already under the key gets the new
/// value and becomes most recent; otherwise, if `len() == cap`, the least
/// recently used entry is removed, and the new entry is attached as most recent.
#[verifier::external_body]
fn lru_put(c: &mut LruCache<String, Vec<u8>>, k: String, v: Vec<u8>)
    ensures
        lru_entries(*final(c)) == put_entries(lru_entries(*old(c)), lru_capacity(*old(c)), k@, v@),
        lru_capacity(*final(c)) == lru_capacity(*old(c)),
{
    let _ = c.put(k, v);
}

/// Relies on `lru::LruCache::get`: the value under the key, if any, whose entry
/// then becomes most recent; the value is handed out as a copy.
#[verifier::external_body]
fn lru_get(c: &mut LruCache<String, Vec<u8>>, k: &str) -> (r: Option<Vec<u8>>)
    ensures
        lru_entries(*final(c)) == get_entries(lru_entries(*old(c)), k@),
        lru_capacity(*final(c)) == lru_capacity(*old(c)),
        match r {
            Some(v) => lookup(lru_entries(*old(c)), k@) == Some(v@),
            None => lookup(lru_entries(*old(c)), k@) is None,
        },
{
    c.get(k).cloned()
}

/// Relies on `lru::LruCache::len`: the number of entries.
#[verifier::external_body]
fn lru_len(c: &LruCache<String, Vec<u8>>) -> (r: usize)
    ensures
        r == lru_entries(*c).len(),
{
    c.len()
}

/// The capacity used when none is configured.
pub const DEFAULT_CAPACITY: usize = 10_000;

/// A capacity-bounded store from handles to image bytes that forgets the least
/// recently used entry when full. Both `put` and `get` count as a use.
pub struct ImageCache {
    lru: LruCache<String, Vec<u8>>,
    cap: usize,
}

impl ImageCache {
    /// The entries, least recently used first.
    pub closed spec fn entries(&self) -> Seq<(Seq<char>, Seq<u8>)> {
        lru_entries(self.lru)
    }

    /// The most entries the cache holds at once.
    pub closed spec fn capacity(&self) -> nat {
        self.cap as nat
    }

    /// The cache's invariant: distinct handles, at most `capacity()` of them.
    pub closed spec fn wf(&self) -> bool {
        &&& lru_capacity(self.lru) == self.cap
        &&& entries_wf(self.entries(), self.capacity())
    }

    /// Exposes the invariant over the model, so that the laws above apply to
    /// a cache's entries.
    pub proof fn lemma_wf(&self)
        requires
            self.wf(),
        ensures
            entries_wf(self.entries(), self.capacity()),
    {
    }

    /// An empty cache holding at most `capacity` entries.
    pub fn new(capacity: usize) -> (r: ImageCache)
        requires
            capacity > 0,
        ensures
            r.wf(),
            r.entries() == Seq::<(Seq<char>, Seq<u8>)>::empty(),
            r.capacity() == capacity,
    {
        ImageCache { lru: lru_new(capacity), cap: capacity }
    }

    /// An empty cache with the default capacity.
    pub fn with_default_capacity() -> (r: ImageCache)
        ensures
            r.wf(),
            r.entries() == Seq::<(Seq<char>, Seq<u8>)>::empty(),
            r.capacity() == DEFAULT_CAPACITY,
    {
        ImageCache::new(DEFAULT_CAPACITY)
    }

    /// Stores `bytes` under `handle` as the most recent entry, replacing what
    /// the handle held; when a new handle finds the cache full, the least
    /// recently used entry is evicted.
    pub fn put(&mut self, handle: String, bytes: Vec<u8>)
        requires
            old(self).wf(),
        ensures
            final(self).wf(),
            final(self).capacity() == old(self).capacity(),
            final(self).entries() == put_entries(
                old(self).entries(),
                old(self).capacity(),
                handle@,
                bytes@,
            ),
    {
        proof {
            lemma_put_wf(self.entries(), self.capacity(), handle@, bytes@);
        }
        lru_put(&mut self.lru, handle, bytes);
    }

    /// The bytes under `handle`, whose entry becomes the most recent; `None`
    /// when the handle is not held.
    pub fn get(&mut self, handle: &str) -> (r: Option<Vec<u8>>)
        requires
            old(self).wf(),
        ensures
            final(self).wf(),
            final(self).capacity() == old(self).capacity(),
            final(self).entries() == get_entries(old(self).entries(), handle@),
            match r {
                Some(v) => lookup(old(self).entries(), handle@) == Some(v@),
                None => lookup(old(self).entries(), handle@) is None,
            },
    {
        proof {
            lemma_get_wf(self.entries(), self.capacity(), handle@);
        }
        lru_get(&mut self.lru, handle)
    }

    /// The number of entries held.
    pub fn len(&self) -> (r: usize)
        ensures
            r == self.entries().len(),
    {
        lru_len(&self.lru)
    }

    /// The most entries the cache holds at once.
    pub fn capacity_limit(&self) -> (r: usize)
        ensures
            r == self.capacity(),
    {
        self.cap
    }
}

} // verus!

//! A counter store held in memory, with the two operations that the
//! limiters need: seed a counter with a time to live unless it is live, and
//! decrement it. Time is given in whole seconds by the caller.
use vstd::prelude::*;
use crate::strategy::{verdict_of, Bucket};

verus! {

/// What the store holds: for each key, its value and the second at which it
/// expires.
pub type CounterMap = Map<Seq<char>, (int, int)>;

/// Whether `key` holds a counter that has not expired at second `now`.
pub open spec fn is_live(m: CounterMap, key: Seq<char>, now: int) -> bool {
    m.contains_key(key) && now < m[key].1
}

/// The second at which a counter seeded at `now` with time to live `ttl`
/// expires (the last second there is, where the sum goes past it).
pub open spec fn expiry(now: int, ttl: int) -> int {
    if now + ttl > u64::MAX {
        u64::MAX as int
    } else {
        now + ttl
    }
}

/// The store after seeding `key` with `value`: no change where the counter
/// is live.
pub open spec fn after_init(m: CounterMap, key: Seq<char>, value: int, ttl: int, now: int) -> CounterMap {
    if is_live(m, key, now) {
        m
    } else {
        m.insert(key, (value, expiry(now, ttl)))
    }
}

/// A counter's value after one decrement, which stops at the least value the
/// store can hold.
pub open spec fn decremented(v: int) -> int {
    if v > i64::MIN {
        v - 1
    } else {
        v
    }
}

/// The store after decrementing `key`: no change where no counter is live.
pub open spec fn after_decrement(m: CounterMap, key: Seq<char>, now: int) -> CounterMap {
    if is_live(m, key, now) {
        m.insert(key, (decremented(m[key].0), m[key].1))
    } else {
        m
    }
}

/// A value as a caller reads it: itself where it fits an `i32`, else `-1`.
pub open spec fn reported(v: int) -> i32 {
    if i32::MIN <= v <= i32::MAX {
        v as i32
    } else {
        -1i32
    }
}

/// What a decrement of `key` gives: the live counter's new value, or `-1`
/// where no counter is live.
pub open spec fn decrement_result(m: CounterMap, key: Seq<char>, now: int) -> i32 {
    if is_live(m, key, now) {
        reported(decremented(m[key].0))
    } else {
        -1i32
    }
}

/// One check of a limiter at second `now`: seed the counter with the
/// bucket, then decrement it. Gives the store after and the value read.
pub open spec fn check_at(m: CounterMap, key: Seq<char>, b: Bucket, now: int) -> (CounterMap, i32) {
    let seeded = after_init(m, key, b.tokens_count as int, b.add_tokens_every as int, now);
    (after_decrement(seeded, key, now), decrement_result(seeded, key, now))
}

/// The values that checks at the given seconds read, one after another.
pub open spec fn trajectory(m: CounterMap, key: Seq<char>, b: Bucket, times: Seq<int>) -> Seq<i32>
    decreases times.len(),
{
    if times.len() == 0 {
        Seq::empty()
    } else {
        let (next, c) = check_at(m, key, b, times[0]);
        seq![c] + trajectory(next, key, b, times.drop_first())
    }
}

/// One counter.
#[derive(Clone, Debug)]
pub struct CounterEntry {
    key: String,
    value: i64,
    expires_at: u64,
}

/// Counters keyed by string, each with a value and an expiry second.
#[derive(Debug)]
pub struct MemoryCounterStore {
    entries: Vec<CounterEntry>,
}

/// The counters that a list of entries holds.
spec fn map_of(es: Seq<CounterEntry>) -> CounterMap {
    Map::new(
        |k: Seq<char>| exists|i: int| 0 <= i < es.len() && es[i].key@ == k,
        |k: Seq<char>|
            {
                let i = choose|i: int| 0 <= i < es.len() && es[i].key@ == k;
                (es[i].value as int, es[i].expires_at as int)
            },
    )
}

spec fn keys_unique(es: Seq<CounterEntry>) -> bool {
    forall|i: int, j: int|
        0 <= i < es.len() && 0 <= j < es.len() && i != j ==> #[trigger] es[i].key@ != #[trigger] es[j].key@
}

proof fn lemma_map_at(es: Seq<CounterEntry>, j: int)
    requires
        keys_unique(es),
        0 <= j < es.len(),
    ensures
        map_of(es).contains_key(es[j].key@),
        map_of(es)[es[j].key@] == (es[j].value as int, es[j].expires_at as int),
{
    let k = es[j].key@;
    assert(exists|i: int| 0 <= i < es.len() && es[i].key@ == k);
    let i = choose|i: int| 0 <= i < es.len() && es[i].key@ == k;
    assert(i == j);
}

proof fn lemma_map_set(es: Seq<CounterEntry>, j: int, e: CounterEntry)
    requires
        keys_unique(es),
        0 <= j < es.len(),
        e.key@ == es[j].key@,
    ensures
        keys_unique(es.update(j, e)),
        map_of(es.update(j, e)) == map_of(es).insert(e.key@, (e.value as int, e.expires_at as int)),
{
    let nes = es.update(j, e);
    assert forall|a: int, b: int|
        0 <= a < nes.len() && 0 <= b < nes.len() && a != b implies #[trigger] nes[a].key@ != #[trigger] nes[b].key@ by {
        assert(nes[a].key@ == es[a].key@);
        assert(nes[b].key@ == es[b].key@);
    }
    let m1 = map_of(nes);
    let m2 = map_of(es).insert(e.key@, (e.value as int, e.expires_at as int));
    assert forall|k: Seq<char>| m1.contains_key(k) <==> m2.contains_key(k) by {
        if m2.contains_key(k) && k != e.key@ {
            let i = choose|i: int| 0 <= i < es.len() && es[i].key@ == k;
            assert(nes[i].key@ == k);
        }
        if m1.contains_key(k) {
            let i = choose|i: int| 0 <= i < nes.len() && nes[i].key@ == k;
            assert(i != j ==> es[i].key@ == k);
        }
        assert(nes[j].key@ == e.key@);
    }
    assert forall|k: Seq<char>| m1.contains_key(k) implies m1[k] == m2[k] by {
        let i = choose|i: int| 0 <= i < nes.len() && nes[i].key@ == k;
        lemma_map_at(nes, i);
        if i != j {
            assert(es[i] == nes[i]);
            lemma_map_at(es, i);
        }
    }
    assert(m1 =~= m2);
}

proof fn lemma_map_push(es: Seq<CounterEntry>, e: CounterEntry)
    requires
        keys_unique(es),
        !map_of(es).contains_key(e.key@),
    ensures
        keys_unique(es.push(e)),
        map_of(es.push(e)) == map_of(es).insert(e.key@, (e.value as int, e.expires_at as int)),
{
    let nes = es.push(e);
    assert forall|a: int, b: int|
        0 <= a < nes.len() && 0 <= b < nes.len() && a != b implies #[trigger] nes[a].key@ != #[trigger] nes[b].key@ by {
        if a < es.len() && b < es.len() {
            assert(nes[a] == es[a] && nes[b] == es[b]);
        } else if a < es.len() {
            assert(nes[a] == es[a]);
            if es[a].key@ == e.key@ {
                assert(map_of(es).contains_key(e.key@));
            }
        } else if b < es.len() {
            assert(nes[b] == es[b]);
            if es[b].key@ == e.key@ {
                assert(map_of(es).contains_key(e.key@));
            }
        }
    }
    let m1 = map_of(nes);
    let m2 = map_of(es).insert(e.key@, (e.value as int, e.expires_at as int));
    assert forall|k: Seq<char>| m1.contains_key(k) <==> m2.contains_key(k) by {
        if m2.contains_key(k) && k != e.key@ {
            let i = choose|i: int| 0 <= i < es.len() && es[i].key@ == k;
            assert(nes[i].key@ == k);
        }
        if m1.contains_key(k) {
            let i = choose|i: int| 0 <= i < nes.len() && nes[i].key@ == k;
            assert(i < es.len() ==> es[i].key@ == k);
        }
        assert(nes[es.len() as int].key@ == e.key@);
    }
    assert forall|k: Seq<char>| m1.contains_key(k) implies m1[k] == m2[k] by {
        let i = choose|i: int| 0 <= i < nes.len() && nes[i].key@ == k;
        lemma_map_at(nes, i);
        if i < es.len() {
            assert(es[i] == nes[i]);
            lemma_map_at(es, i);
        }
    }
    assert(m1 =~= m2);
}

impl MemoryCounterStore {
    #[verifier::type_invariant]
    spec fn inv(self) -> bool {
        keys_unique(self.entries@)
    }

    /// The counters held, by key: value and expiry second.
    pub closed spec fn counters(self) -> CounterMap {
        map_of(self.entries@)
    }

    /// An empty store.
    pub fn new() -> (r: Self)
        ensures
            r.counters() == Map::<Seq<char>, (int, int)>::empty(),
    {
        let r = MemoryCounterStore { entries: Vec::new() };
        assert(map_of(r.entries@) =~= Map::<Seq<char>, (int, int)>::empty());
        r
    }

    fn take_entries(&mut self) -> (r: Vec<CounterEntry>)
        ensures
            r@ == old(self).entries@,
            keys_unique(r@),
    {
        proof {
            use_type_invariant(&*self);
        }
        let mut held = MemoryCounterStore::new();
        std::mem::swap(self, &mut held);
        proof {
            use_type_invariant(&held);
        }
        let MemoryCounterStore { entries } = held;
        entries
    }

    fn position(&self, key: &String) -> (r: Option<usize>)
        ensures
            r matches Some(j) ==> j < self.entries@.len() && self.entries@[j as int].key@ == key@,
            r is None ==> !self.counters().contains_key(key@),
    {
        let mut i: usize = 0;
        while i < self.entries.len()
            invariant
                i <= self.entries@.len(),
                forall|j: int| 0 <= j < i ==> #[trigger] self.entries@[j].key@ != key@,
            decreases self.entries@.len() - i,
        {
            if self.entries[i].key == *key {
                return Some(i);
            }
            i = i + 1;
        }
        None
    }

    /// The live value of `key` at second `now`, if any.
    pub fn get(&self, key: &String, now: u64) -> (r: Option<i64>)
        ensures
            r matches Some(v) ==> is_live(self.counters(), key@, now as int) && v == self.counters()[key@].0,
            r is None ==> !is_live(self.counters(), key@, now as int),
    {
        proof {
            use_type_invariant(self);
        }
        match self.position(key) {
            Some(j) => {
                proof {
                    lemma_map_at(self.entries@, j as int);
                }
                if now < self.entries[j].expires_at {
                    Some(self.entries[j].value)
                } else {
                    None
                }
            },
            None => None,
        }
    }

    /// Seeds `key` with `value`, expiring `ttl` seconds after `now`, unless a
    /// live counter is there.
    pub fn init_if_absent(&mut self, key: &String, value: u32, ttl: u32, now: u64)
        ensures
            final(self).counters() == after_init(
                old(self).counters(),
                key@,
                value as int,
                ttl as int,
                now as int,
            ),
    {
        proof {
            use_type_invariant(&*self);
        }
        let expires_at = if now > u64::MAX - ttl as u64 {
            u64::MAX
        } else {
            now + ttl as u64
        };
        let e = CounterEntry { key: key.clone(), value: value as i64, expires_at };
        let ghost es = self.entries@;
        match self.position(key) {
            Some(j) => {
                proof {
                    lemma_map_at(es, j as int);
                }
                if now < self.entries[j].expires_at {
                    return;
                }
                proof {
                    lemma_map_set(es, j as int, e);
                }
                let mut entries = self.take_entries();
                entries.set(j, e);
                *self = MemoryCounterStore { entries };
            },
            None => {
                proof {
                    lemma_map_push(es, e);
                }
                let mut entries = self.take_entries();
                entries.push(e);
                *self = MemoryCounterStore { entries };
            },
        }
    }

    /// Decrements the live counter under `key` and gives its new value
    /// (`-1` where it does not fit an `i32`); gives `-1` and changes nothing
    /// where no counter is live.
    pub fn decrement(&mut self, key: &String, now: u64) -> (r: i32)
        ensures
            final(self).counters() == after_decrement(old(self).counters(), key@, now as int),
            r == decrement_result(old(self).counters(), key@, now as int),
    {
        proof {
            use_type_invariant(&*self);
        }
        let ghost es = self.entries@;
        match self.position(key) {
            Some(j) => {
                proof {
                    lemma_map_at(es, j as int);
                }
                let old_entry = &self.entries[j];
                if now >= old_entry.expires_at {
                    return -1;
                }
                let v = if old_entry.value > i64::MIN {
                    old_entry.value - 1
                } else {
                    old_entry.value
                };
                let e = CounterEntry { key: key.clone(), value: v, expires_at: old_entry.expires_at };
                proof {
                    lemma_map_set(es, j as int, e);
                }
                let mut entries = self.take_entries();
                entries.set(j, e);
                *self = MemoryCounterStore { entries };
                if i32::MIN as i64 <= v && v <= i32::MAX as i64 {
                    v as i32
                } else {
                    -1
                }
            },
            None => -1,
        }
    }
}

/// Seeding a counter twice within its window is seeding it once: the first
/// call wins and the second changes nothing.
pub proof fn lemma_second_init_is_no_op(
    m: CounterMap,
    key: Seq<char>,
    v1: int,
    t1: int,
    n1: int,
    v2: int,
    t2: int,
    n2: int,
)
    requires
        !is_live(m, key, n1),
        n1 <= n2 < expiry(n1, t1),
    ensures
        after_init(after_init(m, key, v1, t1, n1), key, v2, t2, n2) == after_init(m, key, v1, t1, n1),
{
    let m1 = after_init(m, key, v1, t1, n1);
    assert(m1[key] == (v1, expiry(n1, t1)));
    assert(is_live(m1, key, n2));
}

proof fn lemma_live_trajectory(m: CounterMap, key: Seq<char>, b: Bucket, times: Seq<int>, v: int, e: int)
    requires
        m.contains_key(key),
        m[key] == (v, e),
        forall|i: int| 0 <= i < times.len() ==> #[trigger] times[i] < e,
        v >= times.len() - 1,
        v <= i32::MAX,
    ensures
        trajectory(m, key, b, times).len() == times.len(),
        forall|i: int| 0 <= i < times.len() ==> #[trigger] trajectory(m, key, b, times)[i] == v - 1 - i,
    decreases times.len(),
{
    if times.len() > 0 {
        let t0 = times[0];
        let seeded = after_init(m, key, b.tokens_count as int, b.add_tokens_every as int, t0);
        assert(seeded == m);
        let next = after_decrement(seeded, key, t0);
        assert(next[key] == (v - 1, e));
        let rest = times.drop_first();
        assert forall|i: int| 0 <= i < rest.len() implies #[trigger] rest[i] < e by {
            assert(rest[i] == times[i + 1]);
        }
        lemma_live_trajectory(next, key, b, rest, v - 1, e);
        let tr = trajectory(m, key, b, times);
        assert(tr == seq![decrement_result(seeded, key, t0)] + trajectory(next, key, b, rest));
        assert forall|i: int| 0 <= i < times.len() implies #[trigger] tr[i] == v - 1 - i by {
            if i > 0 {
                assert(tr[i] == trajectory(next, key, b, rest)[i - 1]);
            }
        }
    }
}

/// A bucket of capacity `N` on a counter that is not live: of `N + 1`
/// checks within the window that the first one opens, the first `N` are
/// admitted, with `N - 1`, `N - 2`, ..., `0` tokens left, and the last one is
/// over the limit.
pub proof fn lemma_capacity_then_reject(m: CounterMap, key: Seq<char>, b: Bucket, times: Seq<int>)
    requires
        times.len() == b.tokens_count + 1,
        !is_live(m, key, times[0]),
        forall|i: int| 0 <= i < times.len() ==> #[trigger] times[i] < expiry(times[0], b.add_tokens_every as int),
        b.tokens_count <= i32::MAX,
    ensures
        forall|i: int| 0 <= i < b.tokens_count ==> #[trigger] trajectory(m, key, b, times)[i] == b.tokens_count - 1 - i,
        forall|i: int| 0 <= i < b.tokens_count ==> !(#[trigger] verdict_of(b, trajectory(m, key, b, times)[i])).is_limit_exceeded,
        verdict_of(b, trajectory(m, key, b, times)[b.tokens_count as int]).is_limit_exceeded,
{
    let n = b.tokens_count as int;
    let t0 = times[0];
    let e = expiry(t0, b.add_tokens_every as int);
    let seeded = after_init(m, key, n, b.add_tokens_every as int, t0);
    assert(seeded[key] == (n, e));
    let next = after_decrement(seeded, key, t0);
    assert(next[key] == (n - 1, e));
    let rest = times.drop_first();
    assert forall|i: int| 0 <= i < rest.len() implies #[trigger] rest[i] < e by {
        assert(rest[i] == times[i + 1]);
    }
    lemma_live_trajectory(next, key, b, rest, n - 1, e);
    let tr = trajectory(m, key, b, times);
    assert(tr == seq![decrement_result(seeded, key, t0)] + trajectory(next, key, b, rest));
    assert forall|i: int| 0 <= i <= n implies #[trigger] tr[i] == n - 1 - i by {
        if i > 0 {
            assert(tr[i] == trajectory(next, key, b, rest)[i - 1]);
        }
    }
    assert(tr[n] == -1);
}

/// Once a counter has expired, the next check seeds it afresh: it is read
/// with `N - 1` tokens left.
pub proof fn lemma_expired_counter_reseeds(m: CounterMap, key: Seq<char>, b: Bucket, now: int)
    requires
        m.contains_key(key),
        m[key].1 <= now < u64::MAX,
        b.add_tokens_every > 0,
        b.tokens_count - 1 <= i32::MAX,
    ensures
        check_at(m, key, b, now).1 == b.tokens_count - 1,
        b.tokens_count >= 1 ==> !verdict_of(b, check_at(m, key, b, now).1).is_limit_exceeded,
{
    let seeded = after_init(m, key, b.tokens_count as int, b.add_tokens_every as int, now);
    assert(!is_live(m, key, now));
    assert(seeded[key] == (b.tokens_count as int, expiry(now, b.add_tokens_every as int)));
    assert(is_live(seeded, key, now));
}

} // verus!

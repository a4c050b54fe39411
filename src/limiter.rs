//! Limiters built from settings, the manager that groups them, and the
//! evaluation of one request: identity limiters first, then request limiters,
//! each group ending in a reject when its tightest verdict is over the limit.
use vstd::prelude::*;
use crate::counter_key::{counter_key, hash_of};
use crate::request::SafeRequest;
use crate::store::{check_at, MemoryCounterStore};
use crate::settings::{BuckerPerValue, LimiterSettings, RateLimiterSettings};
use crate::strategy::{
    bucket_of, entries_view, identity_of, is_key_for, keep_tighter, strategy_for, tightest,
    values_unique, verdict_of, Bucket, BucketForValue, LimitForRequest, LimitRedisKey, Strategy,
};

verus! {

/// What a limiter is: its strategy, its global bucket and its per-value
/// buckets as identity values with buckets.
pub type LimiterModel = (Strategy, Option<Bucket>, Option<Seq<(Seq<char>, Bucket)>>);

/// A per-value setting as an identity value and its bucket.
pub open spec fn per_value_entry(b: BuckerPerValue) -> (Seq<char>, Bucket) {
    (b.value@, Bucket { tokens_count: b.tokens_count, add_tokens_every: b.add_tokens_every })
}

/// Adds an entry to a list of per-value buckets: a value already listed keeps
/// its place and takes the new bucket; a new value goes last.
pub open spec fn merge_entry(es: Seq<(Seq<char>, Bucket)>, e: (Seq<char>, Bucket)) -> Seq<
    (Seq<char>, Bucket),
> {
    if exists|i: int| 0 <= i < es.len() && es[i].0 == e.0 {
        es.update(choose|i: int| 0 <= i < es.len() && es[i].0 == e.0, e)
    } else {
        es.push(e)
    }
}

/// The per-value buckets that a list of settings describes: a value listed
/// twice takes its last bucket, in the place where it was first listed.
pub open spec fn merged(list: Seq<BuckerPerValue>) -> Seq<(Seq<char>, Bucket)>
    decreases list.len(),
{
    if list.len() == 0 {
        Seq::empty()
    } else {
        merge_entry(merged(list.drop_last()), per_value_entry(list.last()))
    }
}

/// Whether a limiter setting gives at least one bucket.
pub open spec fn has_bucket(s: LimiterSettings) -> bool {
    s.global_bucket is Some || s.buckets_per_value is Some
}

/// The limiter that a setting describes.
pub open spec fn limiter_model(s: LimiterSettings) -> LimiterModel {
    (
        strategy_for(s.strategy),
        match s.global_bucket {
            Some(g) => Some(bucket_of(g)),
            None => None,
        },
        match s.buckets_per_value {
            Some(l) => Some(merged(l@)),
            None => None,
        },
    )
}

/// The identity limiters (IP and header) that a list of settings describes,
/// in order.
pub open spec fn identity_models(list: Seq<LimiterSettings>) -> Seq<LimiterModel>
    decreases list.len(),
{
    if list.len() == 0 {
        Seq::empty()
    } else if strategy_for(list.last().strategy).spec_is_identity() {
        identity_models(list.drop_last()).push(limiter_model(list.last()))
    } else {
        identity_models(list.drop_last())
    }
}

/// The request limiters (URL) that a list of settings describes, in order.
pub open spec fn request_models(list: Seq<LimiterSettings>) -> Seq<LimiterModel>
    decreases list.len(),
{
    if list.len() == 0 {
        Seq::empty()
    } else if !strategy_for(list.last().strategy).spec_is_identity() {
        request_models(list.drop_last()).push(limiter_model(list.last()))
    } else {
        request_models(list.drop_last())
    }
}

/// Why settings cannot give a manager.
#[derive(Clone, Copy, Debug, PartialEq, Eq, Structural)]
pub enum ManagerError {
    /// A limiter has neither a global bucket nor per-value buckets.
    NoBucketDefined,
}

fn position_of(es: &Vec<BucketForValue>, v: &String) -> (r: Option<usize>)
    ensures
        r matches Some(j) ==> j < es@.len() && es@[j as int].value@ == v@,
        r is None ==> forall|j: int| 0 <= j < es@.len() ==> #[trigger] es@[j].value@ != v@,
{
    let mut i: usize = 0;
    while i < es.len()
        invariant
            i <= es@.len(),
            forall|j: int| 0 <= j < i ==> #[trigger] es@[j].value@ != v@,
        decreases es@.len() - i,
    {
        if es[i].value == *v {
            return Some(i);
        }
        i = i + 1;
    }
    None
}

/// Builds the per-value buckets of a limiter from its settings.
pub fn merge_per_value(list: &Vec<BuckerPerValue>) -> (r: Vec<BucketForValue>)
    ensures
        entries_view(r@) == merged(list@),
        values_unique(entries_view(r@)),
{
    let mut r: Vec<BucketForValue> = Vec::new();
    let mut i: usize = 0;
    assert(entries_view(r@) =~= merged(list@.subrange(0, 0)));
    while i < list.len()
        invariant
            i <= list@.len(),
            entries_view(r@) == merged(list@.subrange(0, i as int)),
            values_unique(entries_view(r@)),
        decreases list@.len() - i,
    {
        let s = &list[i];
        let e = BucketForValue {
            value: s.value.clone(),
            bucket: Bucket::new(s.tokens_count, s.add_tokens_every),
        };
        let ghost old_view = entries_view(r@);
        let ghost pe = per_value_entry(list@[i as int]);
        assert(list@.subrange(0, i + 1).drop_last() =~= list@.subrange(0, i as int));
        assert(list@.subrange(0, i + 1).last() == list@[i as int]);
        assert(merged(list@.subrange(0, i + 1)) == merge_entry(old_view, pe));
        assert((e.value@, e.bucket) == pe);
        match position_of(&r, &s.value) {
            Some(j) => {
                assert(old_view[j as int].0 == pe.0);
                let ghost k = choose|k: int| 0 <= k < old_view.len() && old_view[k].0 == pe.0;
                assert(k == j as int);
                r.set(j, e);
                assert(entries_view(r@) =~= old_view.update(j as int, pe));
            },
            None => {
                assert forall|k: int| 0 <= k < old_view.len() implies old_view[k].0 != pe.0 by {
                    assert(old_view[k].0 == r@[k].value@);
                }
                r.push(e);
                assert(entries_view(r@) =~= old_view.push(pe));
            },
        }
        i = i + 1;
    }
    assert(list@.subrange(0, list@.len() as int) =~= list@);
    r
}

/// One limiter: a strategy with a global bucket, per-value buckets, or both.
#[derive(Clone, Debug)]
pub struct RateLimiter {
    strategy: Strategy,
    global_bucket: Option<Bucket>,
    buckets_per_value: Option<Vec<BucketForValue>>,
}

impl RateLimiter {
    /// What this limiter is.
    pub closed spec fn model(&self) -> LimiterModel {
        (
            self.strategy,
            self.global_bucket,
            match self.buckets_per_value {
                Some(es) => Some(entries_view(es@)),
                None => None,
            },
        )
    }

    /// A limiter has a bucket, and lists each identity value once.
    pub open spec fn wf(&self) -> bool {
        &&& (self.model().1 is Some || self.model().2 is Some)
        &&& (self.model().2 matches Some(es) ==> values_unique(es))
    }

    /// The identity value and bucket that this limiter settles on for a
    /// request from the peer whose address reads `ip`; `None` when it skips.
    pub open spec fn identity(&self, request: SafeRequest, ip: Seq<char>) -> Option<
        (Seq<char>, Bucket),
    > {
        identity_of(self.model().0, request, ip, self.model().1, self.model().2)
    }

    /// Builds the limiter that a setting describes; a setting with no bucket
    /// at all is refused.
    pub fn from_settings(settings: &LimiterSettings) -> (r: Result<RateLimiter, ManagerError>)
        ensures
            r is Err <==> !has_bucket(*settings),
            r matches Err(e) ==> e == ManagerError::NoBucketDefined,
            r matches Ok(l) ==> l.model() == limiter_model(*settings) && l.wf(),
    {
        let strategy = Strategy::from_possible_strategy(&settings.strategy);
        let global_bucket = match &settings.global_bucket {
            Some(g) => Some(Bucket::from(g)),
            None => None,
        };
        let buckets_per_value = match &settings.buckets_per_value {
            Some(list) => Some(merge_per_value(list)),
            None => None,
        };
        if global_bucket.is_none() && buckets_per_value.is_none() {
            return Err(ManagerError::NoBucketDefined);
        }
        Ok(RateLimiter { strategy, global_bucket, buckets_per_value })
    }

    /// The strategy of this limiter.
    pub fn strategy(&self) -> (r: Strategy)
        ensures
            r == self.model().0,
    {
        self.strategy
    }

    /// The counter key and bucket for a request, or `None` where this limiter
    /// skips it.
    pub fn get_redis_key(&self, request: &SafeRequest, ip: &String) -> (r: Option<LimitRedisKey>)
        ensures
            is_key_for(r, self.model().0.kind_tag(), self.identity(*request, ip@)),
    {
        let per_value = match &self.buckets_per_value {
            Some(es) => Some(es),
            None => None,
        };
        self.strategy.get_redis_key(request, ip, self.global_bucket, per_value)
    }
}

impl RateLimiter {
    /// One check of this limiter against an in-memory store at second `now`:
    /// where the limiter does not skip, seeds its counter with the bucket's
    /// capacity unless it is live, decrements it and gives the verdict that
    /// the value read makes; where it skips, leaves the store alone.
    pub fn check(
        &self,
        store: &mut MemoryCounterStore,
        request: &SafeRequest,
        ip: &String,
        now: u64,
    ) -> (r: Option<LimitForRequest>)
        ensures
            match self.identity(*request, ip@) {
                None => r is None && final(store).counters() == old(store).counters(),
                Some((id, b)) => {
                    let key = counter_key(self.model().0.kind_tag(), hash_of(id));
                    &&& final(store).counters() == check_at(old(store).counters(), key, b, now as int).0
                    &&& r == Some(verdict_of(b, check_at(old(store).counters(), key, b, now as int).1))
                },
            },
    {
        match self.get_redis_key(request, ip) {
            None => None,
            Some(k) => {
                store.init_if_absent(&k.key, k.bucket.tokens_count, k.bucket.add_tokens_every, now);
                let count = store.decrement(&k.key, now);
                Some(k.verdict(count))
            },
        }
    }
}

/// The models of a run of limiters.
pub open spec fn models(ls: Seq<RateLimiter>) -> Seq<LimiterModel> {
    ls.map_values(|l: RateLimiter| l.model())
}

/// The whitelist, the identity limiters and the request limiters.
#[derive(Clone, Debug)]
pub struct RateLimiterManager {
    ip_whitelist: Vec<String>,
    user_rate_limiters: Vec<RateLimiter>,
    url_rate_limiters: Vec<RateLimiter>,
}

impl RateLimiterManager {
    /// The whitelisted peer addresses, as text.
    pub closed spec fn whitelist(&self) -> Seq<Seq<char>> {
        self.ip_whitelist@.map_values(|s: String| s@)
    }

    /// The identity limiters (IP and header), in configuration order.
    pub closed spec fn identity_group(&self) -> Seq<RateLimiter> {
        self.user_rate_limiters@
    }

    /// The request limiters (URL), in configuration order.
    pub closed spec fn request_group(&self) -> Seq<RateLimiter> {
        self.url_rate_limiters@
    }

    /// The limiters of group `g`: the identity group first, then the request
    /// group.
    pub open spec fn group(&self, g: int) -> Seq<RateLimiter> {
        if g == 0 {
            self.identity_group()
        } else {
            self.request_group()
        }
    }

    /// Builds the manager that the settings describe: each limiter goes to the
    /// identity group or the request group by its strategy, keeping the
    /// configured order; the whitelist is taken as it is. Fails when a limiter
    /// has no bucket.
    pub fn new(settings: RateLimiterSettings) -> (r: Result<Self, ManagerError>)
        ensures
            r is Err <==> exists|i: int|
                0 <= i < settings.limiters_settings@.len() && !has_bucket(
                    #[trigger] settings.limiters_settings@[i],
                ),
            r matches Err(e) ==> e == ManagerError::NoBucketDefined,
            r matches Ok(m) ==> {
                &&& m.whitelist() == settings.ip_whitelist@.map_values(|s: String| s@)
                &&& models(m.identity_group()) == identity_models(settings.limiters_settings@)
                &&& models(m.request_group()) == request_models(settings.limiters_settings@)
                &&& forall|i: int| 0 <= i < m.identity_group().len() ==> #[trigger] m.identity_group()[i].wf()
                &&& forall|i: int| 0 <= i < m.request_group().len() ==> #[trigger] m.request_group()[i].wf()
            },
    {
        let list = &settings.limiters_settings;
        let mut user: Vec<RateLimiter> = Vec::new();
        let mut url: Vec<RateLimiter> = Vec::new();
        let mut i: usize = 0;
        assert(models(user@) =~= identity_models(list@.subrange(0, 0)));
        assert(models(url@) =~= request_models(list@.subrange(0, 0)));
        while i < list.len()
            invariant
                i <= list@.len(),
                list@ == settings.limiters_settings@,
                forall|k: int| 0 <= k < i ==> has_bucket(#[trigger] list@[k]),
                models(user@) == identity_models(list@.subrange(0, i as int)),
                models(url@) == request_models(list@.subrange(0, i as int)),
                forall|k: int| 0 <= k < user@.len() ==> #[trigger] user@[k].wf(),
                forall|k: int| 0 <= k < url@.len() ==> #[trigger] url@[k].wf(),
            decreases list@.len() - i,
        {
            assert(list@.subrange(0, i + 1).drop_last() =~= list@.subrange(0, i as int));
            assert(list@.subrange(0, i + 1).last() == list@[i as int]);
            match RateLimiter::from_settings(&list[i]) {
                Err(e) => {
                    assert(!has_bucket(settings.limiters_settings@[i as int]));
                    return Err(e);
                },
                Ok(l) => {
                    if l.strategy().is_identity() {
                        user.push(l);
                        assert(models(user@) =~= identity_models(list@.subrange(0, i as int)).push(
                            l.model(),
                        ));
                    } else {
                        url.push(l);
                        assert(models(url@) =~= request_models(list@.subrange(0, i as int)).push(
                            l.model(),
                        ));
                    }
                },
            }
            i = i + 1;
        }
        assert(list@.subrange(0, list@.len() as int) =~= list@);
        Ok(RateLimiterManager {
            ip_whitelist: settings.ip_whitelist,
            user_rate_limiters: user,
            url_rate_limiters: url,
        })
    }

    /// The number of limiters in group `g` (0: identity, else request).
    pub fn group_len(&self, g: usize) -> (r: usize)
        ensures
            r == self.group(g as int).len(),
    {
        if g == 0 {
            self.user_rate_limiters.len()
        } else {
            self.url_rate_limiters.len()
        }
    }

    /// The limiter at position `i` of group `g`.
    pub fn limiter(&self, g: usize, i: usize) -> (r: &RateLimiter)
        requires
            i < self.group(g as int).len(),
        ensures
            *r == self.group(g as int)[i as int],
    {
        if g == 0 {
            &self.user_rate_limiters[i]
        } else {
            &self.url_rate_limiters[i]
        }
    }

    /// Whether the peer whose address reads `ip` is whitelisted.
    pub fn is_whitelisted(&self, ip: &String) -> (r: bool)
        ensures
            r == self.whitelist().contains(ip@),
    {
        let mut i: usize = 0;
        while i < self.ip_whitelist.len()
            invariant
                i <= self.ip_whitelist@.len(),
                forall|k: int| 0 <= k < i ==> #[trigger] self.ip_whitelist@[k]@ != ip@,
            decreases self.ip_whitelist@.len() - i,
        {
            if self.ip_whitelist[i] == *ip {
                assert(self.whitelist()[i as int] == ip@);
                return true;
            }
            i = i + 1;
        }
        assert forall|k: int| 0 <= k < self.whitelist().len() implies self.whitelist()[k] != ip@ by {
            assert(self.whitelist()[k] == self.ip_whitelist@[k]@);
        }
        false
    }
}

} // verus!

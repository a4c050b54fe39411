//! The whole decision for one request against an in-memory counter store:
//! whitelist, identity limiters, then request limiters, each group ending in
//! a reject when its tightest verdict is over the limit.
use vstd::prelude::*;
use crate::counter_key::{counter_key, hash_of};
use crate::evaluation::{consistent, exceeded, lemma_tightest_is_min};
use crate::limiter::{RateLimiter, RateLimiterManager};
use crate::request::SafeRequest;
use crate::store::{check_at, CounterMap, MemoryCounterStore};
use crate::strategy::{keep_tighter, tightest, verdict_of, LimitForRequest};

verus! {

/// How a request is answered.
#[derive(Clone, Copy, Debug)]
pub enum Decision {
    /// Refused as over the limit.
    Reject,
    /// Forwarded, with the verdict to stamp where there is one.
    Forward(Option<LimitForRequest>),
}

/// One limiter's check against the store: the store after it and the
/// verdicts so far with its own added, where it does not skip.
pub open spec fn check_one(
    m: CounterMap,
    l: RateLimiter,
    request: SafeRequest,
    ip: Seq<char>,
    now: int,
    vs: Seq<LimitForRequest>,
) -> (CounterMap, Seq<LimitForRequest>) {
    match l.identity(request, ip) {
        None => (m, vs),
        Some((id, b)) => {
            let (m1, c) = check_at(m, counter_key(l.model().0.kind_tag(), hash_of(id)), b, now);
            (m1, vs.push(verdict_of(b, c)))
        },
    }
}

/// The checks of a run of limiters, in order: the store after them and the
/// verdicts so far with theirs added.
pub open spec fn run_group(
    m: CounterMap,
    ls: Seq<RateLimiter>,
    request: SafeRequest,
    ip: Seq<char>,
    now: int,
    vs: Seq<LimitForRequest>,
) -> (CounterMap, Seq<LimitForRequest>)
    decreases ls.len(),
{
    if ls.len() == 0 {
        (m, vs)
    } else {
        let (m1, vs1) = check_one(m, ls[0], request, ip, now, vs);
        run_group(m1, ls.drop_first(), request, ip, now, vs1)
    }
}

/// The store after the identity group and the verdicts it gave.
pub open spec fn after_identity(
    mgr: RateLimiterManager,
    m: CounterMap,
    request: SafeRequest,
    ip: Seq<char>,
    now: int,
) -> (CounterMap, Seq<LimitForRequest>) {
    run_group(m, mgr.identity_group(), request, ip, now, Seq::empty())
}

/// The store after both groups and every verdict given.
pub open spec fn after_both(
    mgr: RateLimiterManager,
    m: CounterMap,
    request: SafeRequest,
    ip: Seq<char>,
    now: int,
) -> (CounterMap, Seq<LimitForRequest>) {
    let (m1, vs1) = after_identity(mgr, m, request, ip, now);
    run_group(m1, mgr.request_group(), request, ip, now, vs1)
}

/// The decision on a request from the peer whose address reads `ip`, at
/// second `now`, and the store after it.
pub open spec fn decide(
    mgr: RateLimiterManager,
    m: CounterMap,
    request: SafeRequest,
    ip: Seq<char>,
    now: int,
) -> (CounterMap, Decision) {
    if mgr.whitelist().contains(ip) {
        (m, Decision::Forward(None))
    } else {
        let (m1, vs1) = after_identity(mgr, m, request, ip, now);
        if exceeded(tightest(vs1)) {
            (m1, Decision::Reject)
        } else {
            let (m2, vs2) = after_both(mgr, m, request, ip, now);
            if exceeded(tightest(vs2)) {
                (m2, Decision::Reject)
            } else {
                (m2, Decision::Forward(tightest(vs2)))
            }
        }
    }
}

fn check_group(
    mgr: &RateLimiterManager,
    g: usize,
    store: &mut MemoryCounterStore,
    request: &SafeRequest,
    ip: &String,
    now: u64,
    t: Option<LimitForRequest>,
    Ghost(vs): Ghost<Seq<LimitForRequest>>,
) -> (r: (Option<LimitForRequest>, Ghost<Seq<LimitForRequest>>))
    requires
        t == tightest(vs),
    ensures
        (final(store).counters(), r.1@) == run_group(
            old(store).counters(),
            mgr.group(g as int),
            *request,
            ip@,
            now as int,
            vs,
        ),
        r.0 == tightest(r.1@),
{
    let ghost ls = mgr.group(g as int);
    let ghost goal = run_group(store.counters(), ls, *request, ip@, now as int, vs);
    let n = mgr.group_len(g);
    let mut i: usize = 0;
    let mut t = t;
    let ghost mut cur = vs;
    assert(ls.subrange(0, n as int) =~= ls);
    while i < n
        invariant
            n == ls.len(),
            ls == mgr.group(g as int),
            i <= n,
            goal == run_group(store.counters(), ls.subrange(i as int, n as int), *request, ip@, now as int, cur),
            t == tightest(cur),
        decreases n - i,
    {
        let ghost rest = ls.subrange(i as int, n as int);
        assert(rest.drop_first() =~= ls.subrange(i + 1, n as int));
        assert(rest[0] == ls[i as int]);
        let l = mgr.limiter(g, i);
        match l.check(store, request, ip, now) {
            Some(v) => {
                proof {
                    let pushed = cur.push(v);
                    assert(pushed.drop_last() =~= cur);
                    cur = pushed;
                }
                t = keep_tighter(t, v);
            },
            None => {},
        }
        i = i + 1;
    }
    assert(ls.subrange(n as int, n as int).len() == 0);
    (t, Ghost(cur))
}

impl RateLimiterManager {
    /// Decides on a request from the peer whose address reads `ip` at second
    /// `now`, keeping the counters in `store`: a whitelisted peer is
    /// forwarded with nothing stamped and no counter touched; otherwise the
    /// identity limiters are checked, and the request is rejected where their
    /// tightest verdict is over the limit, before any request limiter is
    /// checked; then the request limiters, with the same rule; else the
    /// request is forwarded with the tightest verdict of all.
    pub fn evaluate(&self, store: &mut MemoryCounterStore, request: &SafeRequest, ip: &String, now: u64) -> (r: Decision)
        ensures
            (final(store).counters(), r) == decide(*self, old(store).counters(), *request, ip@, now as int),
    {
        if self.is_whitelisted(ip) {
            return Decision::Forward(None);
        }
        let (t1, v1) = check_group(self, 0, store, request, ip, now, None, Ghost(Seq::empty()));
        if match t1 {
            Some(v) => v.is_limit_exceeded,
            None => false,
        } {
            return Decision::Reject;
        }
        let (t2, v2) = check_group(self, 1, store, request, ip, now, t1, v1);
        if match t2 {
            Some(v) => v.is_limit_exceeded,
            None => false,
        } {
            Decision::Reject
        } else {
            Decision::Forward(t2)
        }
    }
}

proof fn lemma_run_group_consistent(
    m: CounterMap,
    ls: Seq<RateLimiter>,
    request: SafeRequest,
    ip: Seq<char>,
    now: int,
    vs: Seq<LimitForRequest>,
)
    requires
        forall|i: int| 0 <= i < vs.len() ==> consistent(#[trigger] vs[i]),
    ensures
        forall|i: int|
            0 <= i < run_group(m, ls, request, ip, now, vs).1.len() ==> consistent(
                #[trigger] run_group(m, ls, request, ip, now, vs).1[i],
            ),
        run_group(m, ls, request, ip, now, vs).1.len() >= vs.len(),
        forall|i: int| 0 <= i < vs.len() ==> run_group(m, ls, request, ip, now, vs).1[i] == vs[i],
    decreases ls.len(),
{
    if ls.len() > 0 {
        let (m1, vs1) = check_one(m, ls[0], request, ip, now, vs);
        assert forall|i: int| 0 <= i < vs1.len() implies consistent(#[trigger] vs1[i]) by {
            if i < vs.len() {
                assert(vs1[i] == vs[i]);
            }
        }
        lemma_run_group_consistent(m1, ls.drop_first(), request, ip, now, vs1);
        let all = run_group(m, ls, request, ip, now, vs).1;
        assert forall|i: int| 0 <= i < vs.len() implies vs[i] == all[i] by {
            assert(vs1[i] == vs[i]);
            assert(vs1[i] == all[i]);
        }
    }
}

/// A whitelisted peer is forwarded with nothing stamped, and no counter is
/// touched.
pub proof fn lemma_whitelisted_touches_no_counter(
    mgr: RateLimiterManager,
    m: CounterMap,
    request: SafeRequest,
    ip: Seq<char>,
    now: int,
)
    requires
        mgr.whitelist().contains(ip),
    ensures
        decide(mgr, m, request, ip, now) == (m, Decision::Forward(None)),
{
}

/// When the identity limiters reject a request, no request limiter is
/// checked: the store is left as the identity limiters left it.
pub proof fn lemma_identity_reject_spares_request_counters(
    mgr: RateLimiterManager,
    m: CounterMap,
    request: SafeRequest,
    ip: Seq<char>,
    now: int,
)
    requires
        !mgr.whitelist().contains(ip),
        exceeded(tightest(after_identity(mgr, m, request, ip, now).1)),
    ensures
        decide(mgr, m, request, ip, now) == (after_identity(mgr, m, request, ip, now).0, Decision::Reject),
{
}

/// The verdict stamped on a forwarded request is the tightest of all the
/// verdicts that its limiters gave: one of them, with no fewer tokens left
/// than any other, and never a negative count of tokens left.
pub proof fn lemma_stamp_is_tightest_and_not_negative(
    mgr: RateLimiterManager,
    m: CounterMap,
    request: SafeRequest,
    ip: Seq<char>,
    now: int,
)
    ensures
        decide(mgr, m, request, ip, now).1 matches Decision::Forward(Some(v)) ==> {
            let vs = after_both(mgr, m, request, ip, now).1;
            &&& vs.contains(v)
            &&& forall|j: int| 0 <= j < vs.len() ==> v.requests_to_exceed_limit <= (#[trigger] vs[j]).requests_to_exceed_limit
            &&& v.requests_to_exceed_limit >= 0
        },
{
    if !mgr.whitelist().contains(ip) {
        let (m1, vs1) = after_identity(mgr, m, request, ip, now);
        lemma_run_group_consistent(m, mgr.identity_group(), request, ip, now, Seq::empty());
        lemma_run_group_consistent(m1, mgr.request_group(), request, ip, now, vs1);
        let vs = after_both(mgr, m, request, ip, now).1;
        lemma_tightest_is_min(vs);
        if let Some(v) = tightest(vs) {
            let k = choose|k: int| 0 <= k < vs.len() && vs[k] == v;
            assert(consistent(vs[k]));
        }
    }
}

} // verus!

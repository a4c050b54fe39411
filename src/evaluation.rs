//! The evaluation of one request, as a state machine that the caller drives:
//! it names the counter to consult next, takes the counter's value back, and
//! ends in a reject or a forward with the tightest verdict to stamp.
use vstd::prelude::*;
use crate::limiter::{RateLimiter, RateLimiterManager};
use crate::request::SafeRequest;
use crate::strategy::{is_key_for, keep_tighter, tighter, tightest, verdict_of, Bucket, LimitForRequest, LimitRedisKey};

verus! {

/// What the caller does next for a request.
#[derive(Debug)]
pub enum Step {
    /// Seed the counter under the key with the bucket's capacity, expiring
    /// after the bucket's window, unless it exists; decrement it; and hand
    /// the store's answer back through `record`.
    Consult(LimitRedisKey),
    /// Refuse the request as over the limit.
    Reject,
    /// Forward the request, stamping the verdict's capacity and tokens left
    /// where there is one.
    Forward(Option<LimitForRequest>),
}

/// What the counter store answered to a consult.
#[derive(Clone, Copy, Debug, PartialEq, Eq, Structural)]
pub enum CounterReply {
    /// No connection to the store could be had: the limiter gives no verdict.
    Unreachable,
    /// The counter's value after the decrement.
    Value(i32),
    /// The decrement failed: read as `-1`, over the limit.
    Failed,
}

/// The value that a reply gives, if any.
pub open spec fn reply_count(reply: CounterReply) -> Option<i32> {
    match reply {
        CounterReply::Unreachable => None,
        CounterReply::Value(c) => Some(c),
        CounterReply::Failed => Some(-1i32),
    }
}

/// Whether a verdict is there and over the limit.
pub open spec fn exceeded(t: Option<LimitForRequest>) -> bool {
    t matches Some(v) && v.is_limit_exceeded
}

/// A verdict is over the limit exactly when its tokens left are negative.
pub open spec fn consistent(v: LimitForRequest) -> bool {
    v.is_limit_exceeded == (v.requests_to_exceed_limit < 0)
}

/// Every limiter of `ls` from position `from` up to `to` skips the request.
pub open spec fn skips(ls: Seq<RateLimiter>, from: int, to: int, request: SafeRequest, ip: Seq<char>) -> bool {
    forall|j: int| from <= j < to && 0 <= j < ls.len() ==> (#[trigger] ls[j]).identity(request, ip) is None
}

/// From position `oi` of group `og` to position `fi` of group `fg`, every
/// limiter passed over skips the request, and a move from the identity group
/// to the request group happens only where the verdict `t` so far is not over
/// the limit.
pub open spec fn passes_over(
    m: RateLimiterManager,
    request: SafeRequest,
    ip: Seq<char>,
    og: int,
    oi: int,
    fg: int,
    fi: int,
    t: Option<LimitForRequest>,
) -> bool {
    ||| fg == og && skips(m.group(og), oi, fi, request, ip)
    ||| {
        &&& og == 0
        &&& fg == 1
        &&& skips(m.group(0), oi, m.group(0).len() as int, request, ip)
        &&& !exceeded(t)
        &&& skips(m.group(1), 0, fi, request, ip)
    }
}

/// Where the evaluation of one request stands.
pub struct Evaluation {
    group: usize,
    index: usize,
    tightest: Option<LimitForRequest>,
    pending: Option<Bucket>,
    done: bool,
    rejected: bool,
    verdicts: Ghost<Seq<LimitForRequest>>,
    identity_count: Ghost<nat>,
}

impl Evaluation {
    #[verifier::type_invariant]
    spec fn inv(self) -> bool {
        &&& self.group <= 1
        &&& self.tightest == tightest(self.verdicts@)
        &&& forall|i: int| 0 <= i < self.verdicts@.len() ==> consistent(#[trigger] self.verdicts@[i])
        &&& self.identity_count@ <= self.verdicts@.len()
        &&& self.group == 1 ==> !exceeded(tightest(self.verdicts@.take(self.identity_count@ as int)))
        &&& self.rejected ==> self.done && exceeded(self.tightest)
        &&& (self.done && !self.rejected) ==> !exceeded(self.tightest)
        &&& self.pending is Some ==> self.index < usize::MAX && !self.done
    }

    /// The group being walked: 0 for identity limiters, 1 for request limiters.
    pub closed spec fn spec_group(self) -> int {
        self.group as int
    }

    /// The position in the group.
    pub closed spec fn spec_index(self) -> int {
        self.index as int
    }

    /// The tightest verdict so far.
    pub closed spec fn spec_tightest(self) -> Option<LimitForRequest> {
        self.tightest
    }

    /// The bucket of the counter being consulted, if any.
    pub closed spec fn spec_pending(self) -> Option<Bucket> {
        self.pending
    }

    /// Whether the evaluation has ended.
    pub closed spec fn spec_done(self) -> bool {
        self.done
    }

    /// Whether it ended in a reject.
    pub closed spec fn spec_rejected(self) -> bool {
        self.rejected
    }

    /// The verdicts recorded so far, in the order the limiters gave them.
    pub closed spec fn verdicts(self) -> Seq<LimitForRequest> {
        self.verdicts@
    }

    /// How many of the verdicts came from identity limiters, once the
    /// request limiters are being walked.
    pub closed spec fn identity_count(self) -> nat {
        self.identity_count@
    }

    /// What an ended evaluation answers.
    pub open spec fn outcome(self) -> Step {
        if self.spec_rejected() {
            Step::Reject
        } else {
            Step::Forward(self.spec_tightest())
        }
    }

    /// Starts the evaluation of a request from the peer whose address reads
    /// `ip`. A whitelisted peer's evaluation has ended already: it forwards
    /// with nothing to stamp and consults no counter.
    pub fn start(manager: &RateLimiterManager, ip: &String) -> (r: Evaluation)
        ensures
            r.verdicts() == Seq::<LimitForRequest>::empty(),
            r.spec_tightest() is None,
            r.spec_pending() is None,
            !r.spec_rejected(),
            r.spec_done() == manager.whitelist().contains(ip@),
            r.spec_group() == 0,
            r.spec_index() == 0,
    {
        let done = manager.is_whitelisted(ip);
        Evaluation {
            group: 0,
            index: 0,
            tightest: None,
            pending: None,
            done,
            rejected: false,
            verdicts: Ghost(Seq::empty()),
            identity_count: Ghost(0),
        }
    }

    /// Whether the evaluation has ended, as for a whitelisted peer.
    pub fn is_done(&self) -> (r: bool)
        ensures
            r == self.spec_done(),
    {
        self.done
    }

    /// Moves to the next limiter that does not skip the request and names
    /// its counter; at the end of a group, rejects when the tightest verdict
    /// so far is over the limit; after the last group, forwards with it.
    /// An ended evaluation answers as it ended, and a counter named before
    /// and not recorded is given up.
    #[verifier::loop_isolation(false)]
    pub fn next_step(&mut self, manager: &RateLimiterManager, request: &SafeRequest, ip: &String) -> (r: Step)
        ensures
            old(self).spec_done() ==> *final(self) == *old(self) && r == old(self).outcome(),
            !old(self).spec_done() ==> {
                &&& final(self).verdicts() == old(self).verdicts()
                &&& final(self).spec_tightest() == old(self).spec_tightest()
                &&& match r {
                    Step::Consult(k) => {
                        &&& !final(self).spec_done()
                        &&& final(self).spec_pending() == Some(k.bucket)
                        &&& 0 <= final(self).spec_index() < manager.group(final(self).spec_group()).len()
                        &&& is_key_for(
                            Some(k),
                            manager.group(final(self).spec_group())[final(self).spec_index()].model().0.kind_tag(),
                            manager.group(final(self).spec_group())[final(self).spec_index()].identity(*request, ip@),
                        )
                        &&& passes_over(
                            *manager,
                            *request,
                            ip@,
                            old(self).spec_group(),
                            old(self).spec_index(),
                            final(self).spec_group(),
                            final(self).spec_index(),
                            old(self).spec_tightest(),
                        )
                        &&& final(self).spec_group() == 1 ==> !exceeded(
                            tightest(final(self).verdicts().take(final(self).identity_count() as int)),
                        )
                    },
                    Step::Reject => {
                        &&& final(self).spec_done()
                        &&& final(self).spec_rejected()
                        &&& final(self).spec_pending() is None
                        &&& exceeded(old(self).spec_tightest())
                        &&& skips(
                            manager.group(old(self).spec_group()),
                            old(self).spec_index(),
                            manager.group(old(self).spec_group()).len() as int,
                            *request,
                            ip@,
                        )
                    },
                    Step::Forward(t) => {
                        &&& final(self).spec_done()
                        &&& !final(self).spec_rejected()
                        &&& final(self).spec_pending() is None
                        &&& t == old(self).spec_tightest()
                        &&& t == tightest(old(self).verdicts())
                        &&& !exceeded(t)
                        &&& t matches Some(v) ==> v.requests_to_exceed_limit >= 0
                        &&& skips(
                            manager.group(old(self).spec_group()),
                            old(self).spec_index(),
                            manager.group(old(self).spec_group()).len() as int,
                            *request,
                            ip@,
                        )
                        &&& old(self).spec_group() == 0 ==> skips(
                            manager.group(1),
                            0,
                            manager.group(1).len() as int,
                            *request,
                            ip@,
                        )
                    },
                }
            },
    {
        proof {
            use_type_invariant(&*self);
        }
        if self.done {
            return if self.rejected {
                Step::Reject
            } else {
                Step::Forward(self.tightest)
            };
        }
        let t = self.tightest;
        let verdicts = self.verdicts;
        let ghost og = self.group as int;
        let ghost oi = self.index as int;
        let mut group = self.group;
        let mut index = self.index;
        let mut identity_count = self.identity_count;
        if index > manager.group_len(group) {
            index = manager.group_len(group);
        }
        proof {
            if t matches Some(v) {
                lemma_tightest_member(verdicts@);
            }
        }
        loop
            invariant
                group <= 1,
                og == 0 || og == 1,
                index <= manager.group(group as int).len(),
                t == tightest(verdicts@),
                forall|i: int| 0 <= i < verdicts@.len() ==> consistent(#[trigger] verdicts@[i]),
                t matches Some(v) ==> consistent(v),
                identity_count@ <= verdicts@.len(),
                group == 1 ==> !exceeded(tightest(verdicts@.take(identity_count@ as int))),
                group == og ==> skips(manager.group(og), oi, index as int, *request, ip@),
                group != og ==> {
                    &&& og == 0
                    &&& group == 1
                    &&& skips(manager.group(0), oi, manager.group(0).len() as int, *request, ip@)
                    &&& !exceeded(t)
                    &&& skips(manager.group(1), 0, index as int, *request, ip@)
                },
            decreases 1 - group, manager.group(group as int).len() - index,
        {
            let n = manager.group_len(group);
            if index < n {
                let l = manager.limiter(group, index);
                match l.get_redis_key(request, ip) {
                    Some(k) => {
                        *self = Evaluation {
                            group,
                            index,
                            tightest: t,
                            pending: Some(k.bucket),
                            done: false,
                            rejected: false,
                            verdicts,
                            identity_count,
                        };
                        return Step::Consult(k);
                    },
                    None => {
                        index = index + 1;
                    },
                }
            } else if match t {
                Some(v) => v.is_limit_exceeded,
                None => false,
            } {
                *self = Evaluation {
                    group,
                    index,
                    tightest: t,
                    pending: None,
                    done: true,
                    rejected: true,
                    verdicts,
                    identity_count,
                };
                return Step::Reject;
            } else if group == 0 {
                group = 1;
                index = 0;
                identity_count = Ghost(verdicts@.len());
                assert(verdicts@.take(verdicts@.len() as int) =~= verdicts@);
            } else {
                *self = Evaluation {
                    group,
                    index,
                    tightest: t,
                    pending: None,
                    done: true,
                    rejected: false,
                    verdicts,
                    identity_count,
                };
                return Step::Forward(t);
            }
        }
    }

    /// Takes back the store's answer for the counter last named and moves
    /// past its limiter: a value gives that limiter's verdict, a failed
    /// decrement gives the verdict of `-1`, and an unreachable store gives no
    /// verdict. Without a counter named, nothing changes.
    pub fn record(&mut self, reply: CounterReply)
        ensures
            old(self).spec_pending() is None ==> *final(self) == *old(self),
            old(self).spec_pending() matches Some(b) ==> {
                &&& final(self).spec_index() == old(self).spec_index() + 1
                &&& final(self).spec_group() == old(self).spec_group()
                &&& final(self).spec_pending() is None
                &&& !final(self).spec_done()
                &&& final(self).identity_count() == old(self).identity_count()
                &&& final(self).verdicts() == match reply_count(reply) {
                    Some(c) => old(self).verdicts().push(verdict_of(b, c)),
                    None => old(self).verdicts(),
                }
                &&& final(self).spec_tightest() == match reply_count(reply) {
                    Some(c) => tighter(old(self).spec_tightest(), verdict_of(b, c)),
                    None => old(self).spec_tightest(),
                }
            },
    {
        proof {
            use_type_invariant(&*self);
        }
        match self.pending {
            None => {},
            Some(b) => {
                let count = match reply {
                    CounterReply::Unreachable => None,
                    CounterReply::Value(c) => Some(c),
                    CounterReply::Failed => Some(-1i32),
                };
                let (tightest, verdicts) = match count {
                    Some(c) => {
                        let v = LimitForRequest::new(b.tokens_count, c, c < 0);
                        let ghost vs = self.verdicts@.push(v);
                        assert(vs.drop_last() =~= self.verdicts@);
                        assert(vs.last() == v);
                        assert(consistent(v));
                        assert forall|i: int| 0 <= i < vs.len() implies consistent(#[trigger] vs[i]) by {
                            if i < vs.len() - 1 {
                                assert(vs[i] == self.verdicts@[i]);
                            }
                        }
                        assert(vs.take(self.identity_count@ as int) =~= self.verdicts@.take(
                            self.identity_count@ as int,
                        ));
                        (keep_tighter(self.tightest, v), Ghost(vs))
                    },
                    None => (self.tightest, self.verdicts),
                };
                *self = Evaluation {
                    group: self.group,
                    index: self.index + 1,
                    tightest,
                    pending: None,
                    done: false,
                    rejected: false,
                    verdicts,
                    identity_count: self.identity_count,
                };
            },
        }
    }
}

/// The tightest of a run of verdicts is one of them.
proof fn lemma_tightest_member(vs: Seq<LimitForRequest>)
    ensures
        tightest(vs) matches Some(v) ==> vs.contains(v),
        vs.len() > 0 ==> tightest(vs) is Some,
    decreases vs.len(),
{
    if vs.len() > 0 {
        lemma_tightest_member(vs.drop_last());
        if let Some(c) = tightest(vs.drop_last()) {
            let k = choose|k: int| 0 <= k < vs.drop_last().len() && vs.drop_last()[k] == c;
            assert(vs[k] == c);
        }
        assert(vs[vs.len() - 1] == vs.last());
    }
}

/// The verdict stamped on a request is the tightest of the verdicts that
/// its limiters gave: there is one exactly when some limiter gave a verdict;
/// it is one of them, so its capacity is that limiter's; and no verdict has
/// fewer tokens left.
pub proof fn lemma_tightest_is_min(vs: Seq<LimitForRequest>)
    ensures
        tightest(vs) is Some <==> vs.len() > 0,
        tightest(vs) matches Some(v) ==> vs.contains(v),
        tightest(vs) matches Some(v) ==> forall|j: int|
            0 <= j < vs.len() ==> v.requests_to_exceed_limit <= (#[trigger] vs[j]).requests_to_exceed_limit,
    decreases vs.len(),
{
    lemma_tightest_member(vs);
    if vs.len() > 0 {
        lemma_tightest_is_min(vs.drop_last());
        assert forall|j: int| 0 <= j < vs.len() - 1 implies vs[j] == vs.drop_last()[j] by {}
    }
}

} // verus!

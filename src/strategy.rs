//! Buckets, strategies and verdicts: how a limiter names the subject of a
//! request, which bucket applies to it, and what a counter value means.
use vstd::prelude::*;
use crate::counter_key::{counter_key, hash_of, make_counter_key};
use crate::request::{HeaderEntry, SafeRequest};
use crate::settings::{BucketSettings, PossibleStrategies};

verus! {

/// A token bucket: `tokens_count` tokens, granted again every
/// `add_tokens_every` seconds.
#[derive(Clone, Copy, Debug, PartialEq, Eq, Structural)]
pub struct Bucket {
    pub tokens_count: u32,
    pub add_tokens_every: u32,
}

impl Bucket {
    pub fn new(tokens_count: u32, add_tokens_every: u32) -> (r: Self)
        ensures
            r.tokens_count == tokens_count,
            r.add_tokens_every == add_tokens_every,
    {
        Bucket { tokens_count, add_tokens_every }
    }
}

impl<'a> From<&'a BucketSettings> for Bucket {
    fn from(settings: &'a BucketSettings) -> (r: Self) {
        Bucket { tokens_count: settings.tokens_count, add_tokens_every: settings.add_tokens_every }
    }
}

impl<'a> vstd::std_specs::convert::FromSpecImpl<&'a BucketSettings> for Bucket {
    open spec fn obeys_from_spec() -> bool {
        true
    }

    open spec fn from_spec(settings: &'a BucketSettings) -> Bucket {
        bucket_of(*settings)
    }
}

/// The bucket that a bucket setting describes.
pub open spec fn bucket_of(s: BucketSettings) -> Bucket {
    Bucket { tokens_count: s.tokens_count, add_tokens_every: s.add_tokens_every }
}

/// A bucket that applies to one identity value.
#[derive(Clone, Debug)]
pub struct BucketForValue {
    pub value: String,
    pub bucket: Bucket,
}

/// The identity values and buckets of a list of per-value buckets, in order.
pub open spec fn entries_view(es: Seq<BucketForValue>) -> Seq<(Seq<char>, Bucket)> {
    es.map_values(|e: BucketForValue| (e.value@, e.bucket))
}

/// No identity value is listed twice.
pub open spec fn values_unique(es: Seq<(Seq<char>, Bucket)>) -> bool {
    forall|i: int, j: int|
        0 <= i < es.len() && 0 <= j < es.len() && i != j ==> #[trigger] es[i].0 != #[trigger] es[j].0
}

/// The bucket listed for `v`: the last entry with that value.
pub open spec fn find_bucket(es: Seq<(Seq<char>, Bucket)>, v: Seq<char>) -> Option<Bucket>
    decreases es.len(),
{
    if es.len() == 0 {
        None
    } else if es.last().0 == v {
        Some(es.last().1)
    } else {
        find_bucket(es.drop_last(), v)
    }
}

/// The first header named `name`, by its value.
pub open spec fn find_header(hs: Seq<HeaderEntry>, name: Seq<char>) -> Option<Seq<u8>>
    decreases hs.len(),
{
    if hs.len() == 0 {
        None
    } else if hs[0].name@ == name {
        Some(hs[0].value@)
    } else {
        find_header(hs.drop_first(), name)
    }
}

/// What `str::to_lowercase` gives for a string.
pub uninterp spec fn lower_of(s: Seq<char>) -> Seq<char>;

/// Relies on `str::to_lowercase`: the lower-case form of a string depends on
/// its characters alone.
#[verifier::external_body]
fn lowercase(s: &String) -> (r: String)
    ensures
        r@ == lower_of(s@),
{
    s.to_lowercase()
}

/// A byte that an HTTP header value may hold and still read as text: a tab
/// or a visible ASCII character.
pub open spec fn is_visible_ascii(b: u8) -> bool {
    b == 9 || (32 <= b && b < 127)
}

/// The characters of a run of ASCII bytes.
pub open spec fn ascii_chars(bs: Seq<u8>) -> Seq<char> {
    bs.map_values(|b: u8| b as char)
}

/// A header value as text: present when every byte is visible ASCII.
pub open spec fn header_text(bs: Seq<u8>) -> Option<Seq<char>> {
    if forall|i: int| 0 <= i < bs.len() ==> is_visible_ascii(#[trigger] bs[i]) {
        Some(ascii_chars(bs))
    } else {
        None
    }
}

/// Relies on `String::from_utf8_lossy`: ASCII bytes are valid UTF-8, and
/// each of them reads as the character with the same code.
#[verifier::external_body]
fn ascii_to_string(bs: &Vec<u8>) -> (r: String)
    requires
        forall|i: int| 0 <= i < bs@.len() ==> #[trigger] bs@[i] < 128,
    ensures
        r@ == ascii_chars(bs@),
{
    String::from_utf8_lossy(bs.as_slice()).into_owned()
}

/// The text of a header value, or `None` when a byte is not visible ASCII.
pub fn header_value_text(bs: &Vec<u8>) -> (r: Option<String>)
    ensures
        r matches Some(t) ==> header_text(bs@) == Some(t@),
        r is None ==> header_text(bs@) is None,
{
    let mut i: usize = 0;
    while i < bs.len()
        invariant
            i <= bs@.len(),
            forall|k: int| 0 <= k < i ==> is_visible_ascii(#[trigger] bs@[k]),
        decreases bs@.len() - i,
    {
        let b = bs[i];
        if !(b == 9 || (32 <= b && b < 127)) {
            return None;
        }
        i = i + 1;
    }
    Some(ascii_to_string(bs))
}

fn find_header_exec<'a>(hs: &'a Vec<HeaderEntry>, name: &String) -> (r: Option<&'a Vec<u8>>)
    ensures
        r matches Some(v) ==> find_header(hs@, name@) == Some(v@),
        r is None ==> find_header(hs@, name@) is None,
{
    let mut i: usize = 0;
    assert(hs@.subrange(0, hs@.len() as int) =~= hs@);
    while i < hs.len()
        invariant
            i <= hs@.len(),
            find_header(hs@, name@) == find_header(hs@.subrange(i as int, hs@.len() as int), name@),
        decreases hs@.len() - i,
    {
        let ghost rest = hs@.subrange(i as int, hs@.len() as int);
        assert(rest.drop_first() =~= hs@.subrange(i + 1, hs@.len() as int));
        if hs[i].name == *name {
            return Some(&hs[i].value);
        }
        i = i + 1;
    }
    None
}

fn find_bucket_exec(es: &Vec<BucketForValue>, v: &String) -> (r: Option<Bucket>)
    ensures
        r == find_bucket(entries_view(es@), v@),
{
    let mut i: usize = es.len();
    assert(es@.subrange(0, es@.len() as int) =~= es@);
    while i > 0
        invariant
            i <= es@.len(),
            find_bucket(entries_view(es@), v@) == find_bucket(
                entries_view(es@.subrange(0, i as int)),
                v@,
            ),
        decreases i,
    {
        let ghost sub = entries_view(es@.subrange(0, i as int));
        assert(sub.drop_last() =~= entries_view(es@.subrange(0, i - 1)));
        if es[i - 1].value == *v {
            return Some(es[i - 1].bucket);
        }
        i = i - 1;
    }
    assert(entries_view(es@.subrange(0, 0)) =~= Seq::<(Seq<char>, Bucket)>::empty());
    None
}

/// The bucket for `v`: its own entry where one is listed, else the global
/// bucket.
pub open spec fn select_bucket(
    global: Option<Bucket>,
    per_value: Option<Seq<(Seq<char>, Bucket)>>,
    v: Seq<char>,
) -> Option<Bucket> {
    match per_value {
        Some(es) => match find_bucket(es, v) {
            Some(b) => Some(b),
            None => global,
        },
        None => global,
    }
}

/// `"authorization"`, the header that a header limiter falls back to.
pub open spec fn authorization() -> Seq<char> {
    seq!['a', 'u', 't', 'h', 'o', 'r', 'i', 'z', 'a', 't', 'i', 'o', 'n']
}

/// The first listed header value that the request carries, with its bucket.
pub open spec fn first_listed_header(
    es: Seq<(Seq<char>, Bucket)>,
    hs: Seq<HeaderEntry>,
) -> Option<(Seq<u8>, Bucket)>
    decreases es.len(),
{
    if es.len() == 0 {
        None
    } else {
        match find_header(hs, lower_of(es[0].0)) {
            Some(v) => Some((v, es[0].1)),
            None => first_listed_header(es.drop_first(), hs),
        }
    }
}

/// The header value and bucket that a header limiter settles on, before the
/// value is read as text: the first listed header present, else the
/// authorization header under the global bucket.
pub open spec fn header_choice(
    global: Option<Bucket>,
    per_value: Option<Seq<(Seq<char>, Bucket)>>,
    hs: Seq<HeaderEntry>,
) -> Option<(Seq<u8>, Bucket)> {
    let listed = match per_value {
        Some(es) => first_listed_header(es, hs),
        None => None,
    };
    match listed {
        Some(c) => Some(c),
        None => match global {
            Some(g) => match find_header(hs, authorization()) {
                Some(v) => Some((v, g)),
                None => None,
            },
            None => None,
        },
    }
}

/// Rate limits by the peer's address.
#[derive(Clone, Copy, Debug, PartialEq, Eq, Structural)]
pub struct IPRateLimiterStrategy;

/// Rate limits by the request path.
#[derive(Clone, Copy, Debug, PartialEq, Eq, Structural)]
pub struct UrlRateLimiterStrategy;

/// Rate limits by the value of a header.
#[derive(Clone, Copy, Debug, PartialEq, Eq, Structural)]
pub struct HeaderRateLimiterStrategy;

/// A strategy: how a limiter names the subject of a request.
#[derive(Clone, Copy, Debug, PartialEq, Eq, Structural)]
pub enum Strategy {
    IP(IPRateLimiterStrategy),
    Url(UrlRateLimiterStrategy),
    Header(HeaderRateLimiterStrategy),
}

/// The strategy that a setting names.
pub open spec fn strategy_for(s: PossibleStrategies) -> Strategy {
    match s {
        PossibleStrategies::IP => Strategy::IP(IPRateLimiterStrategy),
        PossibleStrategies::URL => Strategy::Url(UrlRateLimiterStrategy),
        PossibleStrategies::Header => Strategy::Header(HeaderRateLimiterStrategy),
    }
}

/// A counter key together with the bucket whose counter it names.
#[derive(Clone, Debug)]
pub struct LimitRedisKey {
    pub key: String,
    pub bucket: Bucket,
}

/// The verdict of one limiter on one request: the bucket's capacity, the
/// tokens left after this request took one (negative once the bucket is
/// overdrawn), and whether the request is over the limit.
#[derive(Clone, Copy, Debug)]
pub struct LimitForRequest {
    pub total_limit: u32,
    pub requests_to_exceed_limit: i32,
    pub is_limit_exceeded: bool,
}

impl LimitForRequest {
    pub fn new(total_limit: u32, requests_to_exceed_limit: i32, is_limit_exceeded: bool) -> (r: Self)
        ensures
            r.total_limit == total_limit,
            r.requests_to_exceed_limit == requests_to_exceed_limit,
            r.is_limit_exceeded == is_limit_exceeded,
    {
        LimitForRequest { total_limit, requests_to_exceed_limit, is_limit_exceeded }
    }
}

impl PartialEq for LimitForRequest {
    /// Verdicts compare by the tokens left alone.
    fn eq(&self, other: &Self) -> (r: bool)
        ensures
            r == (self.requests_to_exceed_limit == other.requests_to_exceed_limit),
    {
        self.requests_to_exceed_limit == other.requests_to_exceed_limit
    }
}

impl vstd::std_specs::cmp::PartialEqSpecImpl for LimitForRequest {
    open spec fn obeys_eq_spec() -> bool {
        true
    }

    open spec fn eq_spec(&self, other: &Self) -> bool {
        self.requests_to_exceed_limit == other.requests_to_exceed_limit
    }
}

impl Eq for LimitForRequest {

}

impl PartialOrd for LimitForRequest {
    /// Verdicts are ordered by the tokens left: the tighter one is smaller.
    fn partial_cmp(&self, other: &Self) -> (r: Option<core::cmp::Ordering>)
        ensures
            r == partial_cmp_remaining(*self, *other),
    {
        if self.requests_to_exceed_limit < other.requests_to_exceed_limit {
            Some(core::cmp::Ordering::Less)
        } else if self.requests_to_exceed_limit > other.requests_to_exceed_limit {
            Some(core::cmp::Ordering::Greater)
        } else {
            Some(core::cmp::Ordering::Equal)
        }
    }
}

/// The order of two verdicts by the tokens left.
pub open spec fn partial_cmp_remaining(a: LimitForRequest, b: LimitForRequest) -> Option<
    core::cmp::Ordering,
> {
    if a.requests_to_exceed_limit < b.requests_to_exceed_limit {
        Some(core::cmp::Ordering::Less)
    } else if a.requests_to_exceed_limit > b.requests_to_exceed_limit {
        Some(core::cmp::Ordering::Greater)
    } else {
        Some(core::cmp::Ordering::Equal)
    }
}

impl vstd::std_specs::cmp::PartialOrdSpecImpl for LimitForRequest {
    open spec fn obeys_partial_cmp_spec() -> bool {
        true
    }

    open spec fn partial_cmp_spec(&self, other: &Self) -> Option<core::cmp::Ordering> {
        partial_cmp_remaining(*self, *other)
    }
}

/// The per-value buckets that a limiter holds, as identity values and buckets.
pub open spec fn per_value_view(p: Option<&Vec<BucketForValue>>) -> Option<Seq<(Seq<char>, Bucket)>> {
    match p {
        Some(es) => Some(entries_view(es@)),
        None => None,
    }
}

fn first_listed_header_exec<'a>(es: &Vec<BucketForValue>, hs: &'a Vec<HeaderEntry>) -> (r: Option<
    (&'a Vec<u8>, Bucket),
>)
    ensures
        r matches Some((v, b)) ==> first_listed_header(entries_view(es@), hs@) == Some((v@, b)),
        r is None ==> first_listed_header(entries_view(es@), hs@) is None,
{
    let mut i: usize = 0;
    assert(entries_view(es@).subrange(0, es@.len() as int) =~= entries_view(es@));
    while i < es.len()
        invariant
            i <= es@.len(),
            first_listed_header(entries_view(es@), hs@) == first_listed_header(
                entries_view(es@).subrange(i as int, es@.len() as int),
                hs@,
            ),
        decreases es@.len() - i,
    {
        let ghost rest = entries_view(es@).subrange(i as int, es@.len() as int);
        assert(rest.drop_first() =~= entries_view(es@).subrange(i + 1, es@.len() as int));
        assert(rest[0] == (es@[i as int].value@, es@[i as int].bucket));
        let name = lowercase(&es[i].value);
        match find_header_exec(hs, &name) {
            Some(v) => {
                return Some((v, es[i].bucket));
            },
            None => {},
        }
        i = i + 1;
    }
    None
}

/// The identity value and bucket that a strategy settles on for a request
/// from the peer whose address reads `ip`; `None` when the limiter skips.
pub open spec fn identity_of(
    strategy: Strategy,
    request: SafeRequest,
    ip: Seq<char>,
    global: Option<Bucket>,
    per_value: Option<Seq<(Seq<char>, Bucket)>>,
) -> Option<(Seq<char>, Bucket)> {
    match strategy {
        Strategy::IP(_) => match select_bucket(global, per_value, ip) {
            Some(b) => Some((ip, b)),
            None => None,
        },
        Strategy::Url(_) => {
            let path = request.spec_head().path@;
            match select_bucket(global, per_value, path) {
                Some(b) => Some((path, b)),
                None => None,
            }
        },
        Strategy::Header(_) => match header_choice(global, per_value, request.spec_head().headers@) {
            Some((v, b)) => match header_text(v) {
                Some(t) => Some((t, b)),
                None => None,
            },
            None => None,
        },
    }
}

/// `r` is the counter key of what the strategy tagged `kind` settled on, or
/// `None` where it skipped.
pub open spec fn is_key_for(
    r: Option<LimitRedisKey>,
    kind: Seq<char>,
    choice: Option<(Seq<char>, Bucket)>,
) -> bool {
    match choice {
        None => r is None,
        Some((id, b)) => r matches Some(k) && k.key@ == counter_key(kind, hash_of(id)) && k.bucket
            == b,
    }
}

/// The kind tag of the IP strategy, `"ip"`.
pub open spec fn ip_tag() -> Seq<char> {
    seq!['i', 'p']
}

/// The kind tag of the URL strategy, `"url"`.
pub open spec fn url_tag() -> Seq<char> {
    seq!['u', 'r', 'l']
}

/// The kind tag of the header strategy, `"header"`.
pub open spec fn header_tag() -> Seq<char> {
    seq!['h', 'e', 'a', 'd', 'e', 'r']
}

impl IPRateLimiterStrategy {
    /// The counter key for the peer's address, under its own bucket where one
    /// is listed, else under the global bucket; `None` where neither applies.
    pub fn get_redis_key(
        &self,
        request: &SafeRequest,
        ip: &String,
        global_bucket: Option<Bucket>,
        buckets_per_value: Option<&Vec<BucketForValue>>,
    ) -> (r: Option<LimitRedisKey>)
        ensures
            is_key_for(
                r,
                ip_tag(),
                identity_of(
                    Strategy::IP(*self),
                    *request,
                    ip@,
                    global_bucket,
                    per_value_view(buckets_per_value),
                ),
            ),
    {
        let bucket = match buckets_per_value {
            Some(es) => match find_bucket_exec(es, ip) {
                Some(b) => Some(b),
                None => global_bucket,
            },
            None => global_bucket,
        };
        match bucket {
            Some(b) => {
                proof {
                    reveal_strlit("ip");
                }
                assert("ip"@ =~= ip_tag());
                let key = make_counter_key("ip", ip);
                Some(LimitRedisKey::new(key, b))
            },
            None => None,
        }
    }
}

impl UrlRateLimiterStrategy {
    /// The counter key for the request path, under its own bucket where one
    /// is listed, else under the global bucket; `None` where neither applies.
    pub fn get_redis_key(
        &self,
        request: &SafeRequest,
        ip: &String,
        global_bucket: Option<Bucket>,
        buckets_per_value: Option<&Vec<BucketForValue>>,
    ) -> (r: Option<LimitRedisKey>)
        ensures
            is_key_for(
                r,
                url_tag(),
                identity_of(
                    Strategy::Url(*self),
                    *request,
                    ip@,
                    global_bucket,
                    per_value_view(buckets_per_value),
                ),
            ),
    {
        let path = &request.head().path;
        let bucket = match buckets_per_value {
            Some(es) => match find_bucket_exec(es, path) {
                Some(b) => Some(b),
                None => global_bucket,
            },
            None => global_bucket,
        };
        match bucket {
            Some(b) => {
                proof {
                    reveal_strlit("url");
                }
                assert("url"@ =~= url_tag());
                let key = make_counter_key("url", path);
                Some(LimitRedisKey::new(key, b))
            },
            None => None,
        }
    }
}

impl HeaderRateLimiterStrategy {
    /// The counter key for the value of the first listed header that the
    /// request carries, under that entry's bucket; failing that, for the
    /// authorization header under the global bucket. `None` where no header
    /// applies or its value does not read as text.
    pub fn get_redis_key(
        &self,
        request: &SafeRequest,
        ip: &String,
        global_bucket: Option<Bucket>,
        buckets_per_value: Option<&Vec<BucketForValue>>,
    ) -> (r: Option<LimitRedisKey>)
        ensures
            is_key_for(
                r,
                header_tag(),
                identity_of(
                    Strategy::Header(*self),
                    *request,
                    ip@,
                    global_bucket,
                    per_value_view(buckets_per_value),
                ),
            ),
    {
        let hs = &request.head().headers;
        let listed = match buckets_per_value {
            Some(es) => first_listed_header_exec(es, hs),
            None => None,
        };
        let choice = match listed {
            Some(c) => Some(c),
            None => match global_bucket {
                Some(g) => {
                    let name = String::from_str("authorization");
                    proof {
                        reveal_strlit("authorization");
                    }
                    assert(name@ =~= authorization());
                    match find_header_exec(hs, &name) {
                        Some(v) => Some((v, g)),
                        None => None,
                    }
                },
                None => None,
            },
        };
        let ghost hc = header_choice(
            global_bucket,
            per_value_view(buckets_per_value),
            request.spec_head().headers@,
        );
        assert(listed matches Some((v, b)) ==> first_listed_header(
            entries_view(buckets_per_value->0@),
            hs@,
        ) == Some((v@, b)));
        assert(choice matches Some((v, b)) ==> hc == Some((v@, b)));
        assert(choice is None ==> hc is None);
        match choice {
            Some((v, b)) => match header_value_text(v) {
                Some(text) => {
                    proof {
                        reveal_strlit("header");
                    }
                    let key = make_counter_key("header", &text);
                    assert(key@ == counter_key(header_tag(), hash_of(text@)));
                    Some(LimitRedisKey::new(key, b))
                },
                None => None,
            },
            None => None,
        }
    }
}

impl Strategy {
    /// The strategy that a setting names.
    pub fn from_possible_strategy(strategy: &PossibleStrategies) -> (r: Self)
        ensures
            r == strategy_for(*strategy),
    {
        match strategy {
            PossibleStrategies::IP => Strategy::IP(IPRateLimiterStrategy),
            PossibleStrategies::URL => Strategy::Url(UrlRateLimiterStrategy),
            PossibleStrategies::Header => Strategy::Header(HeaderRateLimiterStrategy),
        }
    }

    /// The tag that counter keys of this strategy carry.
    pub open spec fn kind_tag(self) -> Seq<char> {
        match self {
            Strategy::IP(_) => ip_tag(),
            Strategy::Url(_) => url_tag(),
            Strategy::Header(_) => header_tag(),
        }
    }

    /// Whether limiters of this strategy belong to the identity group, which
    /// is consulted before the request group.
    pub open spec fn spec_is_identity(self) -> bool {
        !(self is Url)
    }

    /// Whether limiters of this strategy belong to the identity group (IP and
    /// header) rather than the request group (URL).
    pub fn is_identity(&self) -> (r: bool)
        ensures
            r == self.spec_is_identity(),
    {
        match self {
            Strategy::Url(_) => false,
            _ => true,
        }
    }

    /// The counter key and bucket for a request, or `None` where this
    /// strategy skips it.
    pub fn get_redis_key(
        &self,
        request: &SafeRequest,
        ip: &String,
        global_bucket: Option<Bucket>,
        buckets_per_value: Option<&Vec<BucketForValue>>,
    ) -> (r: Option<LimitRedisKey>)
        ensures
            is_key_for(
                r,
                self.kind_tag(),
                identity_of(*self, *request, ip@, global_bucket, per_value_view(buckets_per_value)),
            ),
    {
        match self {
            Strategy::IP(s) => s.get_redis_key(request, ip, global_bucket, buckets_per_value),
            Strategy::Url(s) => s.get_redis_key(request, ip, global_bucket, buckets_per_value),
            Strategy::Header(s) => s.get_redis_key(request, ip, global_bucket, buckets_per_value),
        }
    }
}

impl LimitRedisKey {
    pub fn new(key: String, bucket: Bucket) -> (r: Self)
        ensures
            r.key == key,
            r.bucket == bucket,
    {
        LimitRedisKey { key, bucket }
    }

    /// The verdict that the counter's value after this request's decrement
    /// gives: over the limit exactly when it is negative.
    pub fn verdict(&self, count: i32) -> (r: LimitForRequest)
        ensures
            r == verdict_of(self.bucket, count),
    {
        LimitForRequest::new(self.bucket.tokens_count, count, count < 0)
    }
}

/// The verdict of a bucket whose counter reads `count` after the decrement.
pub open spec fn verdict_of(b: Bucket, count: i32) -> LimitForRequest {
    LimitForRequest {
        total_limit: b.tokens_count,
        requests_to_exceed_limit: count,
        is_limit_exceeded: count < 0,
    }
}

/// The tighter of the verdict so far and a new one: the one with fewer
/// tokens left; on a tie the earlier one stays.
pub open spec fn tighter(so_far: Option<LimitForRequest>, v: LimitForRequest) -> Option<LimitForRequest> {
    match so_far {
        Some(c) => if c.requests_to_exceed_limit > v.requests_to_exceed_limit {
            Some(v)
        } else {
            Some(c)
        },
        None => Some(v),
    }
}

/// The tightest of a run of verdicts.
pub open spec fn tightest(vs: Seq<LimitForRequest>) -> Option<LimitForRequest>
    decreases vs.len(),
{
    if vs.len() == 0 {
        None
    } else {
        tighter(tightest(vs.drop_last()), vs.last())
    }
}

/// Keeps the tighter of the verdict so far and a new one.
pub fn keep_tighter(so_far: Option<LimitForRequest>, v: LimitForRequest) -> (r: Option<LimitForRequest>)
    ensures
        r == tighter(so_far, v),
{
    match so_far {
        Some(c) => if c.requests_to_exceed_limit > v.requests_to_exceed_limit {
            Some(v)
        } else {
            Some(c)
        },
        None => Some(v),
    }
}

/// Counter keys of strategies with different kind tags never meet, whatever
/// the identities hash to.
pub proof fn lemma_keyspaces_disjoint(s1: Strategy, s2: Strategy, h1: u64, h2: u64)
    requires
        s1.kind_tag() != s2.kind_tag(),
    ensures
        counter_key(s1.kind_tag(), h1) != counter_key(s2.kind_tag(), h2),
{
    let k1 = counter_key(s1.kind_tag(), h1);
    let k2 = counter_key(s2.kind_tag(), h2);
    assert(k1[13] == s1.kind_tag()[0]);
    assert(k2[13] == s2.kind_tag()[0]);
    if k1 == k2 {
        assert(s1.kind_tag()[0] == s2.kind_tag()[0]);
        assert(s1.kind_tag() =~= s2.kind_tag());
    }
}

proof fn lemma_no_listed_header(es: Seq<(Seq<char>, Bucket)>, hs: Seq<HeaderEntry>)
    requires
        forall|i: int| 0 <= i < es.len() ==> find_header(hs, lower_of(#[trigger] es[i].0)) is None,
    ensures
        first_listed_header(es, hs) is None,
    decreases es.len(),
{
    if es.len() > 0 {
        assert(find_header(hs, lower_of(es[0].0)) is None);
        assert forall|i: int| 0 <= i < es.drop_first().len() implies find_header(
            hs,
            lower_of(#[trigger] es.drop_first()[i].0),
        ) is None by {
            assert(es.drop_first()[i] == es[i + 1]);
        }
        lemma_no_listed_header(es.drop_first(), hs);
    }
}

/// A header limiter with per-value buckets and no global bucket skips a
/// request that carries none of the listed headers: it names no counter.
pub proof fn lemma_header_limiter_skips_unmatched(
    s: HeaderRateLimiterStrategy,
    request: SafeRequest,
    ip: Seq<char>,
    es: Seq<(Seq<char>, Bucket)>,
)
    requires
        forall|i: int|
            0 <= i < es.len() ==> find_header(request.spec_head().headers@, lower_of(#[trigger] es[i].0)) is None,
    ensures
        identity_of(Strategy::Header(s), request, ip, None, Some(es)) is None,
{
    lemma_no_listed_header(es, request.spec_head().headers@);
}

} // verus!

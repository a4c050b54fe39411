use rate_limiter::counter_key::{make_counter_key, push_decimal};
use rate_limiter::decision::Decision;
use rate_limiter::evaluation::{CounterReply, Evaluation, Step};
use rate_limiter::limiter::{merge_per_value, ManagerError, RateLimiter, RateLimiterManager};
use rate_limiter::request::{HeaderEntry, RequestHead, SafeRequest};
use rate_limiter::settings::{
    BuckerPerValue, BucketSettings, LimiterSettings, PossibleStrategies, RateLimiterSettings,
};
use rate_limiter::store::MemoryCounterStore;
use rate_limiter::strategy::{
    header_value_text, Bucket, HeaderRateLimiterStrategy, LimitForRequest, Strategy,
};
use std::hash::{BuildHasher, BuildHasherDefault, DefaultHasher};

fn hash(s: &str) -> u64 {
    BuildHasherDefault::<DefaultHasher>::default().hash_one(s.to_string())
}

fn request(method: &str, path: &str, headers: &[(&str, &[u8])], body: &[u8]) -> SafeRequest {
    let headers = headers
        .iter()
        .map(|(n, v)| HeaderEntry { name: n.to_string(), value: v.to_vec() })
        .collect();
    SafeRequest::new(
        RequestHead { method: method.to_string(), path: path.to_string(), query: None, headers },
        body.to_vec(),
    )
}

fn get(path: &str) -> SafeRequest {
    request("GET", path, &[], b"")
}

fn bucket(tokens: u32, every: u32) -> Option<BucketSettings> {
    Some(BucketSettings { tokens_count: tokens, add_tokens_every: every })
}

fn per_value(entries: &[(&str, u32, u32)]) -> Option<Vec<BuckerPerValue>> {
    Some(
        entries
            .iter()
            .map(|(v, t, e)| BuckerPerValue { value: v.to_string(), tokens_count: *t, add_tokens_every: *e })
            .collect(),
    )
}

fn limiter(
    strategy: PossibleStrategies,
    global: Option<BucketSettings>,
    pv: Option<Vec<BuckerPerValue>>,
) -> LimiterSettings {
    LimiterSettings { strategy, global_bucket: global, buckets_per_value: pv }
}

fn manager(limiters: Vec<LimiterSettings>, whitelist: &[&str]) -> RateLimiterManager {
    RateLimiterManager::new(RateLimiterSettings {
        redis_addr: "127.0.0.1:6379".to_string(),
        ip_whitelist: whitelist.iter().map(|s| s.to_string()).collect(),
        limiters_settings: limiters,
    })
    .unwrap()
}

#[derive(Debug)]
enum Answer {
    Rejected,
    Forwarded(Option<LimitForRequest>),
}

/// Drives one evaluation against the store; `outage` stands for a store that
/// cannot be reached. Returns the answer and the keys consulted.
fn evaluate(
    m: &RateLimiterManager,
    store: &mut MemoryCounterStore,
    req: &SafeRequest,
    ip: &str,
    now: u64,
    outage: bool,
) -> (Answer, Vec<String>) {
    let ip = ip.to_string();
    let mut ev = Evaluation::start(m, &ip);
    let mut keys = Vec::new();
    loop {
        match ev.next_step(m, req, &ip) {
            Step::Consult(k) => {
                keys.push(k.key.clone());
                if outage {
                    ev.record(CounterReply::Unreachable);
                } else {
                    store.init_if_absent(&k.key, k.bucket.tokens_count, k.bucket.add_tokens_every, now);
                    let c = store.decrement(&k.key, now);
                    ev.record(CounterReply::Value(c));
                }
            }
            Step::Reject => return (Answer::Rejected, keys),
            Step::Forward(t) => return (Answer::Forwarded(t), keys),
        }
    }
}

fn stamped(a: &Answer) -> Option<(u32, i32)> {
    match a {
        Answer::Forwarded(Some(v)) => Some((v.total_limit, v.requests_to_exceed_limit)),
        _ => None,
    }
}

#[test]
fn ip_token_bucket_basic() {
    let m = manager(vec![limiter(PossibleStrategies::IP, bucket(3, 60), None)], &[]);
    let mut store = MemoryCounterStore::new();
    let r = get("/");
    let mut seen = Vec::new();
    for _ in 0..3 {
        let (a, _) = evaluate(&m, &mut store, &r, "1.2.3.4", 100, false);
        seen.push(stamped(&a).unwrap().1);
    }
    assert_eq!(seen, vec![2, 1, 0]);
    let (a, _) = evaluate(&m, &mut store, &r, "1.2.3.4", 101, false);
    assert!(matches!(a, Answer::Rejected));
}

#[test]
fn whitelist_bypass() {
    let m = manager(vec![limiter(PossibleStrategies::IP, bucket(3, 60), None)], &["1.2.3.4"]);
    let mut store = MemoryCounterStore::new();
    let r = get("/");
    for _ in 0..10 {
        let (a, keys) = evaluate(&m, &mut store, &r, "1.2.3.4", 100, false);
        assert!(matches!(a, Answer::Forwarded(None)));
        assert!(keys.is_empty());
    }
    let key = format!("rate_limiter:ip:{}", hash("1.2.3.4"));
    assert_eq!(store.get(&key, 100), None);
    assert!(m.is_whitelisted(&"1.2.3.4".to_string()));
    assert!(!m.is_whitelisted(&"1.2.3.5".to_string()));
}

#[test]
fn url_limit_with_per_value_override() {
    let m = manager(
        vec![limiter(PossibleStrategies::URL, bucket(5, 60), per_value(&[("/login", 1, 60)]))],
        &[],
    );
    let mut store = MemoryCounterStore::new();
    let (a, _) = evaluate(&m, &mut store, &get("/login"), "9.9.9.9", 10, false);
    assert_eq!(stamped(&a), Some((1, 0)));
    let (a, _) = evaluate(&m, &mut store, &get("/login"), "9.9.9.9", 11, false);
    assert!(matches!(a, Answer::Rejected));
    let (a, _) = evaluate(&m, &mut store, &get("/health"), "9.9.9.9", 12, false);
    assert_eq!(stamped(&a), Some((5, 4)));
}

#[test]
fn tightest_verdict_is_stamped() {
    let m = manager(
        vec![
            limiter(PossibleStrategies::IP, bucket(10, 60), None),
            limiter(PossibleStrategies::URL, bucket(2, 60), None),
        ],
        &[],
    );
    let mut store = MemoryCounterStore::new();
    let (a, keys) = evaluate(&m, &mut store, &get("/a"), "1.2.3.4", 0, false);
    assert_eq!(stamped(&a), Some((2, 1)));
    assert_eq!(keys.len(), 2);
}

#[test]
fn identity_group_rejects_before_request_group() {
    let m = manager(
        vec![
            limiter(PossibleStrategies::URL, bucket(5, 60), None),
            limiter(PossibleStrategies::IP, bucket(1, 60), None),
        ],
        &[],
    );
    let mut store = MemoryCounterStore::new();
    let url_key = format!("rate_limiter:url:{}", hash("/x"));
    let (a, keys) = evaluate(&m, &mut store, &get("/x"), "1.2.3.4", 0, false);
    assert_eq!(stamped(&a), Some((1, 0)));
    // the identity limiter is consulted first, although configured second
    assert_eq!(keys[0], format!("rate_limiter:ip:{}", hash("1.2.3.4")));
    assert_eq!(store.get(&url_key, 0), Some(4));
    let (a, keys) = evaluate(&m, &mut store, &get("/x"), "1.2.3.4", 1, false);
    assert!(matches!(a, Answer::Rejected));
    assert_eq!(keys.len(), 1);
    assert_eq!(store.get(&url_key, 1), Some(4));
}

#[test]
fn store_outage_forwards_without_stamp() {
    let m = manager(
        vec![
            limiter(PossibleStrategies::IP, bucket(1, 60), None),
            limiter(PossibleStrategies::URL, bucket(1, 60), None),
        ],
        &[],
    );
    let mut store = MemoryCounterStore::new();
    for _ in 0..5 {
        let (a, keys) = evaluate(&m, &mut store, &get("/x"), "1.2.3.4", 0, true);
        assert!(matches!(a, Answer::Forwarded(None)));
        assert_eq!(keys.len(), 2);
    }
}

#[test]
fn manager_refuses_limiter_without_bucket() {
    let r = RateLimiterManager::new(RateLimiterSettings {
        redis_addr: String::new(),
        ip_whitelist: vec![],
        limiters_settings: vec![
            limiter(PossibleStrategies::IP, bucket(1, 1), None),
            limiter(PossibleStrategies::Header, None, None),
        ],
    });
    assert_eq!(r.err(), Some(ManagerError::NoBucketDefined));
}

#[test]
fn manager_groups_limiters_by_strategy() {
    let m = manager(
        vec![
            limiter(PossibleStrategies::URL, bucket(1, 1), None),
            limiter(PossibleStrategies::Header, bucket(2, 1), None),
            limiter(PossibleStrategies::IP, bucket(3, 1), None),
            limiter(PossibleStrategies::URL, bucket(4, 1), None),
        ],
        &[],
    );
    assert_eq!(m.group_len(0), 2);
    assert_eq!(m.group_len(1), 2);
    assert_eq!(m.limiter(0, 0).strategy(), Strategy::Header(HeaderRateLimiterStrategy));
    assert!(matches!(m.limiter(0, 1).strategy(), Strategy::IP(_)));
    assert!(matches!(m.limiter(1, 1).strategy(), Strategy::Url(_)));
}

#[test]
fn counter_key_has_kind_and_decimal_hash() {
    let id = "1.2.3.4".to_string();
    assert_eq!(make_counter_key("ip", &id), format!("rate_limiter:ip:{}", hash("1.2.3.4")));
    assert_ne!(make_counter_key("ip", &id), make_counter_key("url", &id));
    assert_ne!(make_counter_key("ip", &id), make_counter_key("ip", &"1.2.3.5".to_string()));
}

#[test]
fn decimal_rendering() {
    for n in [0u64, 7, 10, 99, 1234567890, u64::MAX] {
        let mut s = "x".to_string();
        push_decimal(&mut s, n);
        assert_eq!(s, format!("x{}", n));
    }
}

#[test]
fn header_value_text_accepts_visible_ascii_only() {
    assert_eq!(header_value_text(&b"abc XYZ\t~".to_vec()), Some("abc XYZ\t~".to_string()));
    assert_eq!(header_value_text(&vec![]), Some(String::new()));
    assert_eq!(header_value_text(&vec![b'a', 0x7f]), None);
    assert_eq!(header_value_text(&vec![0xc3, 0xa9]), None);
    assert_eq!(header_value_text(&vec![b'\n']), None);
}

#[test]
fn header_limiter_uses_first_listed_header_case_insensitively() {
    let m = manager(
        vec![limiter(
            PossibleStrategies::Header,
            None,
            per_value(&[("X-Api-Key", 2, 60), ("X-Team", 7, 60)]),
        )],
        &[],
    );
    let mut store = MemoryCounterStore::new();
    let r = request("GET", "/", &[("x-team", b"blue"), ("x-api-key", b"k1")], b"");
    let (a, keys) = evaluate(&m, &mut store, &r, "1.1.1.1", 0, false);
    assert_eq!(stamped(&a), Some((2, 1)));
    assert_eq!(keys, vec![format!("rate_limiter:header:{}", hash("k1"))]);
}

#[test]
fn header_limiter_falls_back_to_authorization() {
    let m = manager(
        vec![limiter(PossibleStrategies::Header, bucket(4, 60), per_value(&[("x-api-key", 2, 60)]))],
        &[],
    );
    let mut store = MemoryCounterStore::new();
    let r = request("GET", "/", &[("authorization", b"Bearer t")], b"");
    let (a, keys) = evaluate(&m, &mut store, &r, "1.1.1.1", 0, false);
    assert_eq!(stamped(&a), Some((4, 3)));
    assert_eq!(keys, vec![format!("rate_limiter:header:{}", hash("Bearer t"))]);
    let (a, keys) = evaluate(&m, &mut store, &get("/"), "1.1.1.1", 0, false);
    assert!(matches!(a, Answer::Forwarded(None)));
    assert!(keys.is_empty());
}

#[test]
fn header_limiter_without_match_skips() {
    let m = manager(
        vec![limiter(PossibleStrategies::Header, None, per_value(&[("x-api-key", 1, 60)]))],
        &[],
    );
    let mut store = MemoryCounterStore::new();
    let r = request("GET", "/", &[("authorization", b"abc")], b"");
    for _ in 0..3 {
        let (a, keys) = evaluate(&m, &mut store, &r, "1.1.1.1", 0, false);
        assert!(matches!(a, Answer::Forwarded(None)));
        assert!(keys.is_empty());
    }
}

#[test]
fn header_limiter_skips_value_that_is_not_text() {
    let m = manager(
        vec![limiter(PossibleStrategies::Header, None, per_value(&[("x-api-key", 1, 60)]))],
        &[],
    );
    let mut store = MemoryCounterStore::new();
    let r = request("GET", "/", &[("x-api-key", &[0xff, 0x41])], b"");
    let (a, keys) = evaluate(&m, &mut store, &r, "1.1.1.1", 0, false);
    assert!(matches!(a, Answer::Forwarded(None)));
    assert!(keys.is_empty());
}

#[test]
fn ip_per_value_override_and_global_fallback() {
    let m = manager(
        vec![limiter(PossibleStrategies::IP, bucket(9, 60), per_value(&[("10.0.0.1", 1, 60)]))],
        &[],
    );
    let mut store = MemoryCounterStore::new();
    let (a, _) = evaluate(&m, &mut store, &get("/"), "10.0.0.1", 0, false);
    assert_eq!(stamped(&a), Some((1, 0)));
    let (a, _) = evaluate(&m, &mut store, &get("/"), "10.0.0.2", 0, false);
    assert_eq!(stamped(&a), Some((9, 8)));
}

#[test]
fn per_value_only_limiter_skips_unlisted_value() {
    let m = manager(
        vec![limiter(PossibleStrategies::URL, None, per_value(&[("/login", 1, 60)]))],
        &[],
    );
    let mut store = MemoryCounterStore::new();
    let (a, keys) = evaluate(&m, &mut store, &get("/other"), "1.1.1.1", 0, false);
    assert!(matches!(a, Answer::Forwarded(None)));
    assert!(keys.is_empty());
}

#[test]
fn stamped_remaining_is_never_negative() {
    let m = manager(
        vec![
            limiter(PossibleStrategies::IP, bucket(2, 60), None),
            limiter(PossibleStrategies::URL, bucket(3, 60), None),
        ],
        &[],
    );
    let mut store = MemoryCounterStore::new();
    for i in 0..6 {
        let (a, _) = evaluate(&m, &mut store, &get("/p"), "1.1.1.1", i, false);
        if let Some((_, rem)) = stamped(&a) {
            assert!(rem >= 0);
        }
    }
}

#[test]
fn tightest_of_three_limiters() {
    let m = manager(
        vec![
            limiter(PossibleStrategies::IP, bucket(4, 60), None),
            limiter(PossibleStrategies::Header, bucket(3, 60), None),
            limiter(PossibleStrategies::URL, bucket(6, 60), None),
        ],
        &[],
    );
    let mut store = MemoryCounterStore::new();
    let r = request("GET", "/q", &[("authorization", b"t")], b"");
    let (a, keys) = evaluate(&m, &mut store, &r, "1.1.1.1", 0, false);
    assert_eq!(keys.len(), 3);
    assert_eq!(stamped(&a), Some((3, 2)));
}

#[test]
fn request_round_trip_keeps_everything() {
    let head = RequestHead {
        method: "POST".to_string(),
        path: "/a/b".to_string(),
        query: Some("x=1&y=2".to_string()),
        headers: vec![HeaderEntry { name: "content-type".to_string(), value: b"text/plain".to_vec() }],
    };
    let r = SafeRequest::new(head.clone(), b"payload".to_vec());
    assert_eq!(r.head().method, "POST");
    assert_eq!(r.body(), &b"payload".to_vec());
    let (h, b) = r.into_parts();
    assert_eq!(h.method, head.method);
    assert_eq!(h.path, head.path);
    assert_eq!(h.query, head.query);
    assert_eq!(h.headers.len(), 1);
    assert_eq!(h.headers[0].name, "content-type");
    assert_eq!(h.headers[0].value, b"text/plain".to_vec());
    assert_eq!(b, b"payload".to_vec());
}

#[test]
fn second_init_within_window_is_no_op() {
    let mut store = MemoryCounterStore::new();
    let k = "k".to_string();
    store.init_if_absent(&k, 5, 60, 100);
    assert_eq!(store.decrement(&k, 101), 4);
    store.init_if_absent(&k, 5, 60, 110);
    assert_eq!(store.get(&k, 110), Some(4));
    assert_eq!(store.decrement(&k, 111), 3);
}

#[test]
fn capacity_then_reject_within_window() {
    let mut store = MemoryCounterStore::new();
    let k = "k".to_string();
    let mut seen = Vec::new();
    for t in 0..4u64 {
        store.init_if_absent(&k, 3, 10, t);
        seen.push(store.decrement(&k, t));
    }
    assert_eq!(seen, vec![2, 1, 0, -1]);
}

#[test]
fn expired_counter_is_seeded_again() {
    let m = manager(vec![limiter(PossibleStrategies::IP, bucket(2, 30), None)], &[]);
    let mut store = MemoryCounterStore::new();
    for t in [0u64, 1, 2] {
        evaluate(&m, &mut store, &get("/"), "5.5.5.5", t, false);
    }
    let (a, _) = evaluate(&m, &mut store, &get("/"), "5.5.5.5", 29, false);
    assert!(matches!(a, Answer::Rejected));
    let (a, _) = evaluate(&m, &mut store, &get("/"), "5.5.5.5", 30, false);
    assert_eq!(stamped(&a), Some((2, 1)));
}

#[test]
fn decrement_of_missing_counter_reads_minus_one() {
    let mut store = MemoryCounterStore::new();
    assert_eq!(store.decrement(&"none".to_string(), 0), -1);
    assert_eq!(store.get(&"none".to_string(), 0), None);
}

#[test]
fn zero_window_counter_never_admits() {
    let mut store = MemoryCounterStore::new();
    let k = "z".to_string();
    store.init_if_absent(&k, 3, 0, 5);
    assert_eq!(store.decrement(&k, 5), -1);
}

#[test]
fn check_against_store_gives_verdict() {
    let l = RateLimiter::from_settings(&limiter(PossibleStrategies::URL, bucket(2, 60), None)).unwrap();
    let mut store = MemoryCounterStore::new();
    let r = get("/v");
    let v = l.check(&mut store, &r, &"1.1.1.1".to_string(), 0).unwrap();
    assert_eq!((v.total_limit, v.requests_to_exceed_limit, v.is_limit_exceeded), (2, 1, false));
    l.check(&mut store, &r, &"1.1.1.1".to_string(), 0);
    let v = l.check(&mut store, &r, &"1.1.1.1".to_string(), 0).unwrap();
    assert_eq!((v.requests_to_exceed_limit, v.is_limit_exceeded), (-1, true));
    assert!(RateLimiter::from_settings(&limiter(PossibleStrategies::URL, None, None)).is_err());
}

#[test]
fn per_value_duplicates_keep_last_bucket_in_first_place() {
    let list = per_value(&[("a", 1, 1), ("b", 2, 2), ("a", 3, 3)]).unwrap();
    let merged = merge_per_value(&list);
    assert_eq!(merged.len(), 2);
    assert_eq!(merged[0].value, "a");
    assert_eq!(merged[0].bucket, Bucket::new(3, 3));
    assert_eq!(merged[1].value, "b");
    assert_eq!(merged[1].bucket, Bucket::new(2, 2));
}

#[test]
fn verdicts_compare_by_remaining() {
    let a = LimitForRequest::new(10, 3, false);
    let b = LimitForRequest::new(2, 3, false);
    let c = LimitForRequest::new(5, -1, true);
    assert!(a == b);
    assert!(c < a);
    assert_eq!(a.partial_cmp(&c), Some(std::cmp::Ordering::Greater));
}

#[test]
fn bucket_from_settings() {
    let s = BucketSettings { tokens_count: 7, add_tokens_every: 9 };
    let b = Bucket::from(&s);
    assert_eq!(b, Bucket::new(7, 9));
    assert_eq!(Strategy::from_possible_strategy(&PossibleStrategies::URL), Strategy::Url(rate_limiter::strategy::UrlRateLimiterStrategy));
}

#[test]
fn failed_decrement_reads_as_over_the_limit() {
    let m = manager(
        vec![
            limiter(PossibleStrategies::IP, bucket(5, 60), None),
            limiter(PossibleStrategies::URL, bucket(5, 60), None),
        ],
        &[],
    );
    let ip = "1.1.1.1".to_string();
    let r = get("/");
    let mut ev = Evaluation::start(&m, &ip);
    assert!(!ev.is_done());
    assert!(matches!(ev.next_step(&m, &r, &ip), Step::Consult(_)));
    ev.record(CounterReply::Failed);
    assert!(matches!(ev.next_step(&m, &r, &ip), Step::Reject));
    assert!(matches!(ev.next_step(&m, &r, &ip), Step::Reject));
}

#[test]
fn unreachable_store_skips_only_that_limiter() {
    let m = manager(
        vec![
            limiter(PossibleStrategies::IP, bucket(5, 60), None),
            limiter(PossibleStrategies::URL, bucket(3, 60), None),
        ],
        &[],
    );
    let ip = "1.1.1.1".to_string();
    let r = get("/");
    let mut ev = Evaluation::start(&m, &ip);
    assert!(matches!(ev.next_step(&m, &r, &ip), Step::Consult(_)));
    ev.record(CounterReply::Unreachable);
    assert!(matches!(ev.next_step(&m, &r, &ip), Step::Consult(_)));
    ev.record(CounterReply::Value(2));
    match ev.next_step(&m, &r, &ip) {
        Step::Forward(Some(v)) => assert_eq!((v.total_limit, v.requests_to_exceed_limit), (3, 2)),
        other => panic!("unexpected {:?}", other),
    }
}

#[test]
fn whitelisted_evaluation_is_done_at_start() {
    let m = manager(vec![limiter(PossibleStrategies::IP, bucket(1, 60), None)], &["::1"]);
    let ip = "::1".to_string();
    let mut ev = Evaluation::start(&m, &ip);
    assert!(ev.is_done());
    assert!(matches!(ev.next_step(&m, &get("/"), &ip), Step::Forward(None)));
}

#[test]
fn record_without_consult_changes_nothing() {
    let m = manager(vec![limiter(PossibleStrategies::IP, bucket(1, 60), None)], &[]);
    let ip = "1.1.1.1".to_string();
    let mut ev = Evaluation::start(&m, &ip);
    ev.record(CounterReply::Value(-5));
    match ev.next_step(&m, &get("/"), &ip) {
        Step::Consult(k) => assert_eq!(k.bucket, Bucket::new(1, 60)),
        other => panic!("unexpected {:?}", other),
    }
    ev.record(CounterReply::Value(0));
    assert!(matches!(ev.next_step(&m, &get("/"), &ip), Step::Forward(Some(_))));
    assert!(matches!(ev.next_step(&m, &get("/"), &ip), Step::Forward(Some(_))));
}

fn decide(m: &RateLimiterManager, store: &mut MemoryCounterStore, req: &SafeRequest, ip: &str, now: u64) -> Answer {
    match m.evaluate(store, req, &ip.to_string(), now) {
        Decision::Reject => Answer::Rejected,
        Decision::Forward(t) => Answer::Forwarded(t),
    }
}

#[test]
fn in_memory_ip_bucket_admits_capacity_then_rejects() {
    let m = manager(vec![limiter(PossibleStrategies::IP, bucket(3, 60), None)], &[]);
    let mut store = MemoryCounterStore::new();
    let r = get("/");
    let seen: Vec<Option<(u32, i32)>> =
        (0..3).map(|t| stamped(&decide(&m, &mut store, &r, "1.2.3.4", t))).collect();
    assert_eq!(seen, vec![Some((3, 2)), Some((3, 1)), Some((3, 0))]);
    assert!(matches!(decide(&m, &mut store, &r, "1.2.3.4", 3), Answer::Rejected));
    // another peer has its own counter
    assert_eq!(stamped(&decide(&m, &mut store, &r, "4.3.2.1", 3)), Some((3, 2)));
}

#[test]
fn in_memory_whitelisted_peer_touches_no_counter() {
    let m = manager(vec![limiter(PossibleStrategies::IP, bucket(3, 60), None)], &["1.2.3.4"]);
    let mut store = MemoryCounterStore::new();
    for t in 0..10 {
        assert!(matches!(decide(&m, &mut store, &get("/"), "1.2.3.4", t), Answer::Forwarded(None)));
    }
    let key = format!("rate_limiter:ip:{}", hash("1.2.3.4"));
    assert_eq!(store.get(&key, 5), None);
}

#[test]
fn in_memory_url_override() {
    let m = manager(
        vec![limiter(PossibleStrategies::URL, bucket(5, 60), per_value(&[("/login", 1, 60)]))],
        &[],
    );
    let mut store = MemoryCounterStore::new();
    assert_eq!(stamped(&decide(&m, &mut store, &get("/login"), "1.1.1.1", 0)), Some((1, 0)));
    assert!(matches!(decide(&m, &mut store, &get("/login"), "1.1.1.1", 1), Answer::Rejected));
    assert_eq!(stamped(&decide(&m, &mut store, &get("/health"), "1.1.1.1", 2)), Some((5, 4)));
}

#[test]
fn in_memory_tightest_verdict() {
    let m = manager(
        vec![
            limiter(PossibleStrategies::IP, bucket(10, 60), None),
            limiter(PossibleStrategies::URL, bucket(2, 60), None),
        ],
        &[],
    );
    let mut store = MemoryCounterStore::new();
    assert_eq!(stamped(&decide(&m, &mut store, &get("/a"), "1.2.3.4", 0)), Some((2, 1)));
}

#[test]
fn in_memory_identity_reject_spares_url_counter() {
    let m = manager(
        vec![
            limiter(PossibleStrategies::IP, bucket(1, 60), None),
            limiter(PossibleStrategies::URL, bucket(5, 60), None),
        ],
        &[],
    );
    let mut store = MemoryCounterStore::new();
    let url_key = format!("rate_limiter:url:{}", hash("/x"));
    assert_eq!(stamped(&decide(&m, &mut store, &get("/x"), "1.2.3.4", 0)), Some((1, 0)));
    assert_eq!(store.get(&url_key, 0), Some(4));
    assert!(matches!(decide(&m, &mut store, &get("/x"), "1.2.3.4", 1), Answer::Rejected));
    assert_eq!(store.get(&url_key, 1), Some(4));
}

#[test]
fn in_memory_request_group_reject() {
    let m = manager(
        vec![
            limiter(PossibleStrategies::IP, bucket(10, 60), None),
            limiter(PossibleStrategies::URL, bucket(1, 60), None),
        ],
        &[],
    );
    let mut store = MemoryCounterStore::new();
    assert_eq!(stamped(&decide(&m, &mut store, &get("/y"), "1.2.3.4", 0)), Some((1, 0)));
    assert!(matches!(decide(&m, &mut store, &get("/y"), "1.2.3.4", 1), Answer::Rejected));
    let ip_key = format!("rate_limiter:ip:{}", hash("1.2.3.4"));
    assert_eq!(store.get(&ip_key, 1), Some(8));
}

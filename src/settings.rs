//! Typed settings of the gateway, as a loader hands them over.
use vstd::prelude::*;

verus! {

/// Where the gateway listens and where it forwards.
#[derive(Clone, Debug)]
pub struct ApiGatewaySettings {
    pub target_url: String,
    pub proxy_server_addr: String,
}

/// Settings of the rate limiter: the counter store's address, the peer
/// addresses that bypass every limit (each in its canonical text form), and
/// the limiters in configuration order.
#[derive(Clone, Debug)]
pub struct RateLimiterSettings {
    pub redis_addr: String,
    pub ip_whitelist: Vec<String>,
    pub limiters_settings: Vec<LimiterSettings>,
}

/// The strategy a limiter uses to name the subject of a quota.
#[derive(Clone, Copy, Debug, PartialEq, Eq, Structural)]
pub enum PossibleStrategies {
    IP,
    URL,
    Header,
}

/// One configured limiter.
#[derive(Clone, Debug)]
pub struct LimiterSettings {
    pub strategy: PossibleStrategies,
    pub global_bucket: Option<BucketSettings>,
    pub buckets_per_value: Option<Vec<BuckerPerValue>>,
}

/// A bucket that applies to one identity value only.
#[derive(Clone, Debug)]
pub struct BuckerPerValue {
    pub value: String,
    pub tokens_count: u32,
    pub add_tokens_every: u32,
}

/// A bucket: `tokens_count` tokens for every `add_tokens_every` seconds.
#[derive(Clone, Copy, Debug, PartialEq, Eq, Structural)]
pub struct BucketSettings {
    pub tokens_count: u32,
    pub add_tokens_every: u32,
}

/// All settings of one gateway process.
#[derive(Clone, Debug)]
pub struct Settings {
    pub rate_limiter_settings: RateLimiterSettings,
    pub api_gateway_settings: ApiGatewaySettings,
}

} // verus!

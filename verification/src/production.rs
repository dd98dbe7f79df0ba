//! The production settings of the secured API: stricter rate limits, the production CORS
//! origins, the gateway's production validation, keys and monitoring, and the token
//! settings.
use vstd::prelude::*;
use crate::cors::{origin_list, views, CorsConfig};
use crate::gateway::{ApiGatewayConfig, ApiKeyInfo, ApiKeyValidationStrategy, ValidationStrictness};
use crate::jwt::{JwtConfig, JwtService};
use crate::rate_limit::{
    default_endpoint_rules, exact_rule, lemma_exact_rule_views, limit_of, rule_views, with_rule, EndpointLimit,
    RateLimitConfig,
};
use crate::text::{chars_of, vec_eq};

verus! {

/// Sets the rule of `path`.
fn set_endpoint_limit(rules: &mut Vec<(String, EndpointLimit)>, path: &str, limit: EndpointLimit)
    ensures
        rule_views(final(rules)@) == with_rule(rule_views(old(rules)@), path@, limit),
{
    let p = chars_of(path);
    let mut i: usize = 0;
    while i < rules.len()
        invariant
            i <= rules@.len(),
            p@ == path@,
            rules@ == old(rules)@,
            exact_rule(rules@.subrange(0, i as int), path@) is None,
        decreases rules@.len() - i,
    {
        assert(rules@.subrange(0, i + 1).drop_last() =~= rules@.subrange(0, i as int));
        let k = chars_of(rules[i].0.as_str());
        if vec_eq(&k, &p) {
            proof {
                lemma_first_exact(rules@, path@, i as int);
                lemma_exact_rule_views(rules@, path@);
            }
            rules.set(i, (String::from_str(path), limit));
            assert(rule_views(rules@) =~= with_rule(rule_views(old(rules)@), path@, limit));
            return ;
        }
        i = i + 1;
    }
    assert(rules@.subrange(0, rules@.len() as int) =~= rules@);
    proof {
        lemma_exact_rule_views(rules@, path@);
    }
    rules.push((String::from_str(path), limit));
    assert(rule_views(rules@) =~= with_rule(rule_views(old(rules)@), path@, limit));
}

/// An exact rule after none in a prefix is the first.
proof fn lemma_first_exact(rules: Seq<(String, EndpointLimit)>, path: Seq<char>, i: int)
    requires
        0 <= i < rules.len(),
        exact_rule(rules.subrange(0, i), path) is None,
        rules[i].0@ == path,
    ensures
        exact_rule(rules, path) == Some(i),
    decreases rules.len() - i,
{
    if i == rules.len() - 1 {
        assert(rules.drop_last() =~= rules.subrange(0, i));
    } else {
        assert(rules.drop_last().subrange(0, i) =~= rules.subrange(0, i));
        lemma_first_exact(rules.drop_last(), path, i);
    }
}

/// The production rate limits: the defaults with 60 requests a minute, 1000 an hour and 10
/// connections per client; 120 and 2000 per ordinary user, 300 and 5000 per administrator;
/// and login limited to 5 a minute, transactions to 30 a minute.
pub fn create_production_rate_limit_config() -> (c: RateLimitConfig)
    ensures
        c.ip_limits.requests_per_minute == 60,
        c.ip_limits.requests_per_hour == 1000,
        c.ip_limits.concurrent_connections == 10,
        c.user_limits.authenticated_requests_per_minute == 120,
        c.user_limits.authenticated_requests_per_hour == 2000,
        c.user_limits.admin_requests_per_minute == 300,
        c.user_limits.admin_requests_per_hour == 5000,
        c.global_limits.total_requests_per_minute == 30000,
        c.window_size == 60,
        c.allow_burst,
        c.burst_multiplier == 150,
        rule_views(c.endpoint_limits@) == with_rule(
            with_rule(default_endpoint_rules(), "/auth/login"@, limit_of(5, 20, 2, false, false)),
            "/api/v1/transactions"@,
            limit_of(30, 500, 5, true, false),
        ),
{
    let mut config = RateLimitConfig::default();
    config.ip_limits.requests_per_minute = 60;
    config.ip_limits.requests_per_hour = 1000;
    config.ip_limits.concurrent_connections = 10;
    config.user_limits.authenticated_requests_per_minute = 120;
    config.user_limits.authenticated_requests_per_hour = 2000;
    config.user_limits.admin_requests_per_minute = 300;
    config.user_limits.admin_requests_per_hour = 5000;
    set_endpoint_limit(
        &mut config.endpoint_limits,
        "/auth/login",
        EndpointLimit {
            requests_per_minute: 5,
            requests_per_hour: 20,
            concurrent_requests: 2,
            require_auth: false,
            admin_only: false,
        },
    );
    set_endpoint_limit(
        &mut config.endpoint_limits,
        "/api/v1/transactions",
        EndpointLimit {
            requests_per_minute: 30,
            requests_per_hour: 500,
            concurrent_requests: 5,
            require_auth: true,
            admin_only: false,
        },
    );
    config
}


/// The production CORS settings: the production defaults for the service's three domains.
pub fn create_production_cors_config() -> (c: CorsConfig)
    ensures
        c.validate_origins,
        views(c.allowed_origins@) == seq![
            "https://mev-shield.aurex.in"@,
            "https://app.mev-shield.aurex.in"@,
            "https://admin.mev-shield.aurex.in"@,
        ],
{
    let mut domains: Vec<String> = Vec::new();
    domains.push(String::from_str("mev-shield.aurex.in"));
    domains.push(String::from_str("app.mev-shield.aurex.in"));
    domains.push(String::from_str("admin.mev-shield.aurex.in"));
    let c = CorsConfig::production(domains);
    proof {
        reveal_strlit("https://");
        reveal_strlit("mev-shield.aurex.in");
        reveal_strlit("app.mev-shield.aurex.in");
        reveal_strlit("admin.mev-shield.aurex.in");
        reveal_strlit("https://mev-shield.aurex.in");
        reveal_strlit("https://app.mev-shield.aurex.in");
        reveal_strlit("https://admin.mev-shield.aurex.in");
        let ds = domains@;
        let d1 = ds.drop_last().drop_last();
        let d2 = ds.drop_last();
        assert(d1.drop_last() =~= Seq::<String>::empty());
        assert(origin_list(d1.drop_last()) =~= Seq::<Seq<char>>::empty());
        assert(d1.last()@ == "mev-shield.aurex.in"@);
        assert(d2.last()@ == "app.mev-shield.aurex.in"@);
        assert(ds.last()@ == "admin.mev-shield.aurex.in"@);
        lemma_prefixed("mev-shield.aurex.in"@);
        lemma_prefixed("app.mev-shield.aurex.in"@);
        lemma_prefixed("admin.mev-shield.aurex.in"@);
        assert("https://"@ + "mev-shield.aurex.in"@ =~= "https://mev-shield.aurex.in"@);
        assert("https://"@ + "app.mev-shield.aurex.in"@ =~= "https://app.mev-shield.aurex.in"@);
        assert("https://"@ + "admin.mev-shield.aurex.in"@ =~= "https://admin.mev-shield.aurex.in"@);
        assert(origin_list(d1) =~= seq!["https://mev-shield.aurex.in"@]);
        assert(origin_list(d2) =~= seq!["https://mev-shield.aurex.in"@, "https://app.mev-shield.aurex.in"@]);
        assert(origin_list(ds) =~= seq![
            "https://mev-shield.aurex.in"@,
            "https://app.mev-shield.aurex.in"@,
            "https://admin.mev-shield.aurex.in"@,
        ]);
    }
    c
}

/// A domain that does not start with `h` gets the `https://` prefix.
proof fn lemma_prefixed(d: Seq<char>)
    requires
        d.len() > 0,
        d[0] != 'h',
    ensures
        crate::cors::https_origin(d) == "https://"@ + d,
{
    reveal_strlit("https://");
    if crate::text::starts_with(d, "https://"@) {
        assert(d.subrange(0, 8)[0] == d[0]);
    }
}

/// The production gateway settings: the defaults with requests of at most 5 MiB, the one
/// production key (`read` and `write`, 1000 requests, no expiry), JSON of depth 5, arrays
/// of 100 and strings of 1000, every request sampled, and alerts above a 2 % error rate or
/// a 500 ms 99th-percentile latency.
pub fn create_production_api_gateway_config() -> (c: ApiGatewayConfig)
    ensures
        c.validation.strictness_level == ValidationStrictness::Strict,
        c.validation.max_request_size == 5 * 1024 * 1024,
        c.security.api_key_config.validation_strategy matches ApiKeyValidationStrategy::Static(keys) && keys@.len()
            == 1 && keys@[0].0@ == "mev_shield_prod_key_001"@ && keys@[0].1.key_id@ == "prod_001"@
            && keys@[0].1.user_id@ == "system"@ && keys@[0].1.permissions@.len() == 2
            && keys@[0].1.permissions@[0]@ == "read"@ && keys@[0].1.permissions@[1]@ == "write"@
            && keys@[0].1.rate_limit == Some(1000u32) && keys@[0].1.expires_at is None,
        c.security.content_security.max_json_depth == 5,
        c.security.content_security.max_array_length == 100,
        c.security.content_security.max_string_length == 1000,
        c.monitoring.sample_rate == 10000,
        c.monitoring.alert_thresholds.error_rate == 200,
        c.monitoring.alert_thresholds.latency_p99 == 500,
        c.versioning.default_version@ == "v1"@,
        c.security.api_key_config.enabled,
        c.security.api_key_config.header_name@ == "X-API-Key"@,
{
    let mut config = ApiGatewayConfig::default();
    config.validation.strictness_level = ValidationStrictness::Strict;
    config.validation.max_request_size = 5 * 1024 * 1024;
    let mut permissions: Vec<String> = Vec::new();
    permissions.push(String::from_str("read"));
    permissions.push(String::from_str("write"));
    let mut keys: Vec<(String, ApiKeyInfo)> = Vec::new();
    keys.push(
        (
            String::from_str("mev_shield_prod_key_001"),
            ApiKeyInfo {
                key_id: String::from_str("prod_001"),
                user_id: String::from_str("system"),
                permissions,
                rate_limit: Some(1000),
                expires_at: None,
            },
        ),
    );
    config.security.api_key_config.validation_strategy = ApiKeyValidationStrategy::Static(keys);
    config.security.content_security.max_json_depth = 5;
    config.security.content_security.max_array_length = 100;
    config.security.content_security.max_string_length = 1000;
    config.monitoring.sample_rate = 10000;
    config.monitoring.alert_thresholds.error_rate = 200;
    config.monitoring.alert_thresholds.latency_p99 = 500;
    config
}

/// The token service of the production authentication state: issuer `mev-shield-api`,
/// audience `mev-shield-users`, access tokens for an hour and refresh tokens for seven days.
pub fn create_auth_jwt_service() -> (s: JwtService)
    ensures
        s.config.secret@ == "production_secret_key_change_in_production"@,
        s.config.issuer@ == "mev-shield-api"@,
        s.config.audience@ == "mev-shield-users"@,
        s.config.access_token_expiry == 3600,
        s.config.refresh_token_expiry == 604800,
{
    JwtService::new(
        JwtConfig {
            secret: String::from_str("production_secret_key_change_in_production"),
            issuer: String::from_str("mev-shield-api"),
            audience: String::from_str("mev-shield-users"),
            access_token_expiry: 3600,
            refresh_token_expiry: 604800,
        },
    )
}

} // verus!

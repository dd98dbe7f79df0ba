//! The API gateway's decisions: its configuration, the API version a request asks for,
//! its security checks (API key, content type, size), and the circuit breakers and
//! metrics per endpoint. A request is handed over as plain text: method, path, query and
//! headers. Times are milliseconds since the epoch.
use vstd::prelude::*;
use crate::circuit::{CircuitBreaker, CircuitBreakerConfig, GatewayMetrics};
use crate::text::{
    chars_of, eq_ignore_case, find_char, find_seq, first_occurrence, index_of_char, starts_with, string_from_chars,
    sub_chars, vec_eq_ignore_case, vec_starts_with,
};

verus! {

/// Where the API version of a request is read from.
#[derive(Debug, Clone)]
pub enum VersionExtractionMethod {
    /// A header, such as `X-API-Version`.
    Header(String),
    /// A query parameter, such as `?version=v1`.
    QueryParameter(String),
    /// The path, as in `/api/v1/...`.
    PathPrefix,
    /// The `Accept` header, as in `application/vnd.mev-shield.v1+json`.
    AcceptHeader,
}

/// How strictly requests are validated.
#[derive(Debug, Clone, Copy, PartialEq, Eq, Structural)]
pub enum ValidationStrictness {
    Strict,
    Lenient,
    Disabled,
}

/// Algorithms for signing requests.
#[derive(Debug, Clone, Copy, PartialEq, Eq, Structural)]
pub enum SigningAlgorithm {
    HmacSha256,
    HmacSha512,
    Ed25519,
}

/// Request signing configuration.
#[derive(Debug, Clone, Copy, PartialEq, Eq, Structural)]
pub struct RequestSigningConfig {
    pub enabled: bool,
    pub algorithm: SigningAlgorithm,
    /// Seconds.
    pub timestamp_tolerance: u64,
    pub validate_nonce: bool,
}

/// Content security configuration.
#[derive(Debug, Clone)]
pub struct ContentSecurityConfig {
    pub max_json_depth: usize,
    pub max_array_length: usize,
    pub max_string_length: usize,
    pub allowed_content_types: Vec<String>,
}

/// API versioning configuration.
#[derive(Debug, Clone)]
pub struct VersioningConfig {
    pub supported_versions: Vec<String>,
    pub default_version: String,
    /// Deprecated versions with their sunset times.
    pub deprecated_versions: Vec<(String, i64)>,
    pub extraction_method: VersionExtractionMethod,
}

/// Request validation configuration.
#[derive(Debug, Clone)]
pub struct ValidationConfig {
    pub validate_requests: bool,
    pub validate_responses: bool,
    pub max_request_size: usize,
    pub strictness_level: ValidationStrictness,
    /// JSON schemas by name, as JSON text.
    pub schema_registry: Vec<(String, String)>,
}

/// Throttling strategies.
#[derive(Debug, Clone, Copy, PartialEq, Eq, Structural)]
pub enum ThrottlingStrategy {
    RateLimit { requests_per_second: u32, burst_capacity: u32 },
    ConcurrencyLimit { max_concurrent: u32 },
    /// Thresholds in hundredths of a percent.
    ResourceBased { cpu_threshold: u32, memory_threshold: u32 },
}

/// Throttling configuration.
#[derive(Debug, Clone)]
pub struct ThrottlingConfig {
    pub enabled: bool,
    pub strategies: Vec<ThrottlingStrategy>,
    pub circuit_breaker: CircuitBreakerConfig,
}

/// Alerting thresholds of the gateway.
#[derive(Debug, Clone, Copy, PartialEq, Eq, Structural)]
pub struct AlertThresholds {
    /// Error rate in hundredths of a percent.
    pub error_rate: u32,
    /// Milliseconds.
    pub latency_p99: u64,
    pub request_volume: u32,
}

/// Monitoring configuration of the gateway.
#[derive(Debug, Clone, Copy, PartialEq, Eq, Structural)]
pub struct MonitoringConfig {
    pub enable_logging: bool,
    pub enable_metrics: bool,
    pub enable_tracing: bool,
    /// Share of requests logged in detail, in hundredths of a percent.
    pub sample_rate: u32,
    pub alert_thresholds: AlertThresholds,
}

/// An API key the gateway knows.
#[derive(Debug, Clone)]
pub struct ApiKeyInfo {
    pub key_id: String,
    pub user_id: String,
    pub permissions: Vec<String>,
    pub rate_limit: Option<u32>,
    pub expires_at: Option<i64>,
}

/// How API keys are checked.
#[derive(Debug, Clone)]
pub enum ApiKeyValidationStrategy {
    Database,
    Redis,
    Static(Vec<(String, ApiKeyInfo)>),
}

/// API key configuration.
#[derive(Debug, Clone)]
pub struct ApiKeyConfig {
    pub enabled: bool,
    pub header_name: String,
    pub validation_strategy: ApiKeyValidationStrategy,
    pub rate_limiting: bool,
}

/// Security configuration of the gateway.
#[derive(Debug, Clone)]
pub struct SecurityConfig {
    pub api_key_config: ApiKeyConfig,
    pub jwt_validation: bool,
    pub request_signing: RequestSigningConfig,
    pub ip_filtering: bool,
    pub content_security: ContentSecurityConfig,
}

/// API gateway configuration.
#[derive(Debug, Clone)]
pub struct ApiGatewayConfig {
    pub versioning: VersioningConfig,
    pub validation: ValidationConfig,
    pub throttling: ThrottlingConfig,
    pub monitoring: MonitoringConfig,
    pub security: SecurityConfig,
}

/// The JSON schema of a submitted transaction, as text.
pub open spec fn transaction_schema_text() -> Seq<char> {
    "{\"type\":\"object\",\"required\":[\"from\",\"to\",\"value\",\"gas\",\"gasPrice\",\"nonce\",\"data\",\"chainId\"],\"properties\":{\"from\":{\"type\":\"string\",\"pattern\":\"^0x[a-fA-F0-9]{40}$\"},\"to\":{\"type\":\"string\",\"pattern\":\"^0x[a-fA-F0-9]{40}$\"},\"value\":{\"type\":\"string\",\"pattern\":\"^[0-9]+$\"},\"gas\":{\"type\":\"integer\",\"minimum\":21000,\"maximum\":30000000},\"gasPrice\":{\"type\":\"string\",\"pattern\":\"^[0-9]+$\"},\"nonce\":{\"type\":\"integer\",\"minimum\":0},\"data\":{\"type\":\"string\",\"pattern\":\"^0x[a-fA-F0-9]*$\"},\"chainId\":{\"type\":\"integer\",\"minimum\":1}}}"@
}

/// The JSON schema of a submitted transaction.
fn transaction_schema() -> (s: String)
    ensures
        s@ == transaction_schema_text(),
{
    String::from_str(
        "{\"type\":\"object\",\"required\":[\"from\",\"to\",\"value\",\"gas\",\"gasPrice\",\"nonce\",\"data\",\"chainId\"],\"properties\":{\"from\":{\"type\":\"string\",\"pattern\":\"^0x[a-fA-F0-9]{40}$\"},\"to\":{\"type\":\"string\",\"pattern\":\"^0x[a-fA-F0-9]{40}$\"},\"value\":{\"type\":\"string\",\"pattern\":\"^[0-9]+$\"},\"gas\":{\"type\":\"integer\",\"minimum\":21000,\"maximum\":30000000},\"gasPrice\":{\"type\":\"string\",\"pattern\":\"^[0-9]+$\"},\"nonce\":{\"type\":\"integer\",\"minimum\":0},\"data\":{\"type\":\"string\",\"pattern\":\"^0x[a-fA-F0-9]*$\"},\"chainId\":{\"type\":\"integer\",\"minimum\":1}}}",
    )
}

impl Default for ApiGatewayConfig {
    fn default() -> (c: Self)
        ensures
            c.versioning.supported_versions@.len() == 2,
            c.versioning.supported_versions@[0]@ == "v1"@,
            c.versioning.supported_versions@[1]@ == "v2"@,
            c.versioning.default_version@ == "v1"@,
            c.versioning.deprecated_versions@.len() == 0,
            c.versioning.extraction_method is PathPrefix,
            c.validation.validate_requests && !c.validation.validate_responses,
            c.validation.max_request_size == 10 * 1024 * 1024,
            c.validation.strictness_level == ValidationStrictness::Strict,
            c.throttling.enabled,
            c.throttling.circuit_breaker == (CircuitBreakerConfig {
                failure_threshold: 10,
                time_window: 60_000,
                recovery_timeout: 30_000,
                success_threshold: 5,
            }),
            c.security.api_key_config.enabled,
            c.security.api_key_config.header_name@ == "X-API-Key"@,
            c.security.api_key_config.validation_strategy matches ApiKeyValidationStrategy::Static(keys) && keys@.len()
                == 0,
            c.security.content_security.allowed_content_types@.len() == 3,
            c.security.content_security.allowed_content_types@[0]@ == "application/json"@,
            c.security.content_security.allowed_content_types@[1]@ == "application/x-www-form-urlencoded"@,
            c.security.content_security.allowed_content_types@[2]@ == "multipart/form-data"@,
            c.validation.schema_registry@.len() == 1,
            c.validation.schema_registry@[0].0@ == "transaction"@,
            c.validation.schema_registry@[0].1@ == transaction_schema_text(),
            c.throttling.strategies@ == seq![
                ThrottlingStrategy::RateLimit { requests_per_second: 100, burst_capacity: 200 },
                ThrottlingStrategy::ConcurrencyLimit { max_concurrent: 1000 },
            ],
            c.monitoring == (MonitoringConfig {
                enable_logging: true,
                enable_metrics: true,
                enable_tracing: true,
                sample_rate: 1000,
                alert_thresholds: AlertThresholds { error_rate: 500, latency_p99: 1000, request_volume: 10000 },
            }),
            c.security.api_key_config.rate_limiting,
            c.security.jwt_validation,
            c.security.ip_filtering,
            c.security.request_signing == (RequestSigningConfig {
                enabled: false,
                algorithm: SigningAlgorithm::HmacSha256,
                timestamp_tolerance: 300,
                validate_nonce: true,
            }),
            c.security.content_security.max_json_depth == 10,
            c.security.content_security.max_array_length == 1000,
            c.security.content_security.max_string_length == 10000,
    {
        let mut schema_registry: Vec<(String, String)> = Vec::new();
        schema_registry.push((String::from_str("transaction"), transaction_schema()));
        let mut supported_versions: Vec<String> = Vec::new();
        supported_versions.push(String::from_str("v1"));
        supported_versions.push(String::from_str("v2"));
        let mut strategies: Vec<ThrottlingStrategy> = Vec::new();
        strategies.push(ThrottlingStrategy::RateLimit { requests_per_second: 100, burst_capacity: 200 });
        strategies.push(ThrottlingStrategy::ConcurrencyLimit { max_concurrent: 1000 });
        let mut allowed_content_types: Vec<String> = Vec::new();
        allowed_content_types.push(String::from_str("application/json"));
        allowed_content_types.push(String::from_str("application/x-www-form-urlencoded"));
        allowed_content_types.push(String::from_str("multipart/form-data"));
        ApiGatewayConfig {
            versioning: VersioningConfig {
                supported_versions,
                default_version: String::from_str("v1"),
                deprecated_versions: Vec::new(),
                extraction_method: VersionExtractionMethod::PathPrefix,
            },
            validation: ValidationConfig {
                validate_requests: true,
                validate_responses: false,
                max_request_size: 10 * 1024 * 1024,
                strictness_level: ValidationStrictness::Strict,
                schema_registry,
            },
            throttling: ThrottlingConfig {
                enabled: true,
                strategies,
                circuit_breaker: CircuitBreakerConfig {
                    failure_threshold: 10,
                    time_window: 60_000,
                    recovery_timeout: 30_000,
                    success_threshold: 5,
                },
            },
            monitoring: MonitoringConfig {
                enable_logging: true,
                enable_metrics: true,
                enable_tracing: true,
                sample_rate: 1000,
                alert_thresholds: AlertThresholds { error_rate: 500, latency_p99: 1000, request_volume: 10000 },
            },
            security: SecurityConfig {
                api_key_config: ApiKeyConfig {
                    enabled: true,
                    header_name: String::from_str("X-API-Key"),
                    validation_strategy: ApiKeyValidationStrategy::Static(Vec::new()),
                    rate_limiting: true,
                },
                jwt_validation: true,
                request_signing: RequestSigningConfig {
                    enabled: false,
                    algorithm: SigningAlgorithm::HmacSha256,
                    timestamp_tolerance: 300,
                    validate_nonce: true,
                },
                ip_filtering: true,
                content_security: ContentSecurityConfig {
                    max_json_depth: 10,
                    max_array_length: 1000,
                    max_string_length: 10000,
                    allowed_content_types,
                },
            },
        }
    }
}

/// A request as the gateway sees it. Header values are those that are visible ASCII text.
#[derive(Debug, Clone)]
pub struct GatewayRequest {
    pub method: String,
    pub path: String,
    pub query: Option<String>,
    pub headers: Vec<(String, String)>,
}

/// The value of the first header named `name` (ASCII case ignored).
pub open spec fn header_value(headers: Seq<(String, String)>, name: Seq<char>) -> Option<Seq<char>>
    decreases headers.len(),
{
    if headers.len() == 0 {
        None
    } else {
        match header_value(headers.drop_last(), name) {
            Some(v) => Some(v),
            None => if eq_ignore_case(headers.last().0@, name) {
                Some(headers.last().1@)
            } else {
                None
            },
        }
    }
}

/// The value of the first header named `name` (ASCII case ignored).
pub fn find_header(headers: &Vec<(String, String)>, name: &str) -> (r: Option<Vec<char>>)
    ensures
        r matches Some(v) ==> header_value(headers@, name@) == Some(v@),
        r is None ==> header_value(headers@, name@) is None,
{
    let n = chars_of(name);
    let mut i: usize = 0;
    while i < headers.len()
        invariant
            n@ == name@,
            i <= headers@.len(),
            header_value(headers@.subrange(0, i as int), name@) is None,
        decreases headers@.len() - i,
    {
        proof {
            assert(headers@.subrange(0, i + 1).drop_last() =~= headers@.subrange(0, i as int));
        }
        let k = chars_of(headers[i].0.as_str());
        if vec_eq_ignore_case(&k, &n) {
            let v = chars_of(headers[i].1.as_str());
            proof {
                lemma_header_prefix(headers@, name@, (i + 1) as int);
            }
            return Some(v);
        }
        i = i + 1;
    }
    assert(headers@.subrange(0, headers@.len() as int) =~= headers@);
    None
}

/// A header found in a prefix is the header found in the whole list.
proof fn lemma_header_prefix(headers: Seq<(String, String)>, name: Seq<char>, i: int)
    requires
        0 <= i <= headers.len(),
        header_value(headers.subrange(0, i), name) is Some,
    ensures
        header_value(headers, name) == header_value(headers.subrange(0, i), name),
    decreases headers.len() - i,
{
    if i < headers.len() {
        assert(headers.subrange(0, i + 1).drop_last() =~= headers.subrange(0, i));
        lemma_header_prefix(headers, name, i + 1);
    } else {
        assert(headers.subrange(0, i) =~= headers);
    }
}

/// `p` begins with `/api/`.
pub open spec fn under_api(p: Seq<char>) -> bool {
    p.len() >= 5 && p[0] == '/' && p[1] == 'a' && p[2] == 'p' && p[3] == 'i' && p[4] == '/'
}

/// The version in a path: the segment after `/api/` where it begins with `v`.
pub open spec fn path_version(p: Seq<char>) -> Option<Seq<char>> {
    if under_api(p) {
        let seg = p.subrange(5, index_of_char(p, '/', 5));
        if seg.len() > 0 && seg[0] == 'v' {
            Some(seg)
        } else {
            None
        }
    } else {
        None
    }
}

proof fn lemma_index_of_char_bounds(s: Seq<char>, c: char, from: int)
    requires
        0 <= from <= s.len(),
    ensures
        from <= index_of_char(s, c, from) <= s.len(),
    decreases s.len() - from,
{
    if from < s.len() && s[from] != c {
        lemma_index_of_char_bounds(s, c, from + 1);
    }
}

/// The version segment of a path, if it has one.
pub fn extract_path_version(path: &str) -> (r: Option<String>)
    ensures
        r matches Some(v) ==> path_version(path@) == Some(v@),
        r is None ==> path_version(path@) is None,
{
    let p = chars_of(path);
    if p.len() >= 5 && p[0] == '/' && p[1] == 'a' && p[2] == 'p' && p[3] == 'i' && p[4] == '/' {
        let end = find_char(&p, '/', 5);
        proof {
            lemma_index_of_char_bounds(p@, '/', 5);
        }
        let seg = sub_chars(&p, 5, end);
        if seg.len() > 0 && seg[0] == 'v' {
            return Some(string_from_chars(&seg));
        }
    }
    None
}

/// The marker of a version in an `Accept` header.
pub open spec fn accept_marker() -> Seq<char> {
    seq!['v', 'n', 'd', '.', 'm', 'e', 'v', '-', 's', 'h', 'i', 'e', 'l', 'd', '.', 'v']
}

/// The version named by one media range of an `Accept` header: `v` and what lies between
/// the first marker and the first `+` after it.
pub open spec fn part_version(part: Seq<char>) -> Option<Seq<char>> {
    match first_occurrence(part, accept_marker()) {
        Some(start) => {
            let plus = index_of_char(part, '+', start);
            if plus < part.len() {
                Some(seq!['v'] + part.subrange(start + 16, plus))
            } else {
                None
            }
        },
        None => None,
    }
}

/// The version named by an `Accept` header: that of the first comma-separated part that
/// names one.
pub open spec fn accept_version(s: Seq<char>) -> Option<Seq<char>>
    decreases s.len(),
{
    let comma = index_of_char(s, ',', 0);
    let part = s.subrange(0, comma);
    match part_version(part) {
        Some(v) => Some(v),
        None => if 0 <= comma < s.len() {
            accept_version(s.subrange(comma + 1, s.len() as int))
        } else {
            None
        },
    }
}

/// A `+` at or after a marker lies beyond the marker.
proof fn lemma_plus_after_marker(part: Seq<char>, start: int)
    requires
        first_occurrence(part, accept_marker()) == Some(start),
    ensures
        start + 16 <= index_of_char(part, '+', start) <= part.len(),
{
    crate::text::lemma_first_occurrence_found(part, accept_marker(), 0);
    lemma_no_plus_in_marker(part, start, start);
    lemma_index_of_char_bounds(part, '+', start);
}

/// The marker at `start` holds no `+`.
proof fn lemma_no_plus_in_marker(part: Seq<char>, start: int, from: int)
    requires
        crate::text::occurs_at(part, accept_marker(), start),
        start <= from <= start + 16,
    ensures
        index_of_char(part, '+', from) >= start + 16,
    decreases start + 16 - from,
{
    if from < start + 16 {
        assert(part.subrange(start, start + 16)[from - start] == accept_marker()[from - start]);
        assert(part[from] != '+');
        lemma_no_plus_in_marker(part, start, from + 1);
    } else {
        lemma_index_of_char_bounds(part, '+', from);
    }
}

/// The version named by an `Accept` header, if any.
pub fn extract_accept_version(accept: &str) -> (r: Option<String>)
    ensures
        r matches Some(v) ==> accept_version(accept@) == Some(v@),
        r is None ==> accept_version(accept@) is None,
{
    let mut marker: Vec<char> = Vec::new();
    marker.push('v');
    marker.push('n');
    marker.push('d');
    marker.push('.');
    marker.push('m');
    marker.push('e');
    marker.push('v');
    marker.push('-');
    marker.push('s');
    marker.push('h');
    marker.push('i');
    marker.push('e');
    marker.push('l');
    marker.push('d');
    marker.push('.');
    marker.push('v');
    assert(marker@ =~= accept_marker());
    let s = chars_of(accept);
    let mut rest: Vec<char> = s;
    loop
        invariant
            marker@ == accept_marker(),
            accept_version(rest@) == accept_version(accept@),
        decreases rest@.len(),
    {
        let comma = find_char(&rest, ',', 0);
        proof {
            lemma_index_of_char_bounds(rest@, ',', 0);
        }
        let part = sub_chars(&rest, 0, comma);
        match find_seq(&part, &marker) {
            Some(start) => {
                proof {
                    lemma_plus_after_marker(part@, start as int);
                }
                let plus = find_char(&part, '+', start);
                if plus < part.len() {
                    let mid = sub_chars(&part, start + 16, plus);
                    let mut v: Vec<char> = Vec::new();
                    v.push('v');
                    let mut k: usize = 0;
                    while k < mid.len()
                        invariant
                            k <= mid@.len(),
                            v@ == seq!['v'] + mid@.subrange(0, k as int),
                        decreases mid@.len() - k,
                    {
                        v.push(mid[k]);
                        k = k + 1;
                        assert(v@ =~= seq!['v'] + mid@.subrange(0, k as int));
                    }
                    assert(mid@.subrange(0, mid@.len() as int) =~= mid@);
                    return Some(string_from_chars(&v));
                }
            },
            None => {},
        }
        if comma < rest.len() {
            let next = sub_chars(&rest, comma + 1, rest.len());
            rest = next;
        } else {
            return None;
        }
    }
}

/// The HTTP status that refuses a request.
pub type StatusCode = u16;

/// What the gateway reads as the API version of a request: per the extraction method, a
/// header (400 where it is missing), a query parameter (400 where a query lacks it, the
/// default without a query), the path's version segment, or the `Accept` header's version;
/// the default where the latter two name none.
pub open spec fn version_of(method: VersionExtractionMethod, default: Seq<char>, req: GatewayRequest, pairs: Seq<(Seq<char>, Seq<char>)>) -> Result<Seq<char>, StatusCode> {
    match method {
        VersionExtractionMethod::Header(name) => match header_value(req.headers@, name@) {
            Some(v) => Ok(v),
            None => Err(400),
        },
        VersionExtractionMethod::QueryParameter(param) => match req.query {
            Some(q) => match last_pair_value(pairs, param@) {
                Some(v) => Ok(v),
                None => Err(400),
            },
            None => Ok(default),
        },
        VersionExtractionMethod::PathPrefix => match path_version(req.path@) {
            Some(v) => Ok(v),
            None => Ok(default),
        },
        VersionExtractionMethod::AcceptHeader => match header_value(req.headers@, "accept"@) {
            Some(a) => match accept_version(a) {
                Some(v) => Ok(v),
                None => Ok(default),
            },
            None => Ok(default),
        },
    }
}

/// The value of the last pair with key `key`: collected into a map, later pairs win.
pub open spec fn last_pair_value(pairs: Seq<(Seq<char>, Seq<char>)>, key: Seq<char>) -> Option<Seq<char>>
    decreases pairs.len(),
{
    if pairs.len() == 0 {
        None
    } else if pairs.last().0 == key {
        Some(pairs.last().1)
    } else {
        last_pair_value(pairs.drop_last(), key)
    }
}

/// The decoded name-value pairs of a query string, in order.
pub uninterp spec fn form_pairs(query: Seq<char>) -> Seq<(Seq<char>, Seq<char>)>;

/// `url::form_urlencoded::parse` of the query's bytes, each pair made owned. Stated: the
/// pairs are the named `form_pairs` of the query.
#[verifier::external_body]
fn parse_query_pairs(query: &str) -> (r: Vec<(String, String)>)
    ensures
        r@.len() == form_pairs(query@).len(),
        forall|i: int|
            0 <= i < r@.len() ==> (#[trigger] r@[i]).0@ == form_pairs(query@)[i].0 && r@[i].1@ == form_pairs(query@)[i].1,
{
    url::form_urlencoded::parse(query.as_bytes()).into_owned().collect()
}


/// The value of a decimal `usize` as `str::parse::<usize>` reads it: an optional `+` and
/// at least one digit, and nothing beyond `usize::MAX`.
pub open spec fn usize_text_value(s: Seq<char>) -> Option<nat> {
    let digits = if s.len() > 0 && s[0] == '+' { s.subrange(1, s.len() as int) } else { s };
    if digits.len() == 0 {
        None
    } else {
        match crate::redistribution::decimal_value(digits) {
            Some(v) => if v <= usize::MAX { Some(v) } else { None },
            None => None,
        }
    }
}

/// `str::parse::<usize>`.
pub fn parse_usize(s: &Vec<char>) -> (r: Option<usize>)
    ensures
        r matches Some(v) ==> usize_text_value(s@) == Some(v as nat),
        r is None ==> usize_text_value(s@) is None,
{
    let digits = if s.len() > 0 && s[0] == '+' { sub_chars(s, 1, s.len()) } else { sub_chars(s, 0, s.len()) };
    assert(s@.subrange(0, s@.len() as int) =~= s@);
    if digits.len() == 0 {
        return None;
    }
    let text = string_from_chars(&digits);
    match crate::redistribution::parse_wei(text.as_str()) {
        Some(v) => {
            if v > usize::MAX as u128 {
                None
            } else {
                Some(v as usize)
            }
        },
        None => None,
    }
}

/// The decimal digits of `n`.
pub open spec fn decimal_text(n: nat) -> Seq<char>
    decreases n,
{
    if n < 10 {
        seq![(n + 48) as char]
    } else {
        decimal_text(n / 10).push(((n % 10) + 48) as char)
    }
}

/// The decimal digits of `n`.
pub fn decimal_string(n: u64) -> (r: String)
    ensures
        r@ == decimal_text(n as nat),
    decreases n,
{
    let mut v: Vec<char> = Vec::new();
    if n < 10 {
        v.push(digit_char(n));
        assert(v@ =~= decimal_text(n as nat));
        return string_from_chars(&v);
    }
    let head = decimal_string(n / 10);
    let mut chars = chars_of(head.as_str());
    chars.push(digit_char(n % 10));
    string_from_chars(&chars)
}

fn digit_char(d: u64) -> (c: char)
    requires
        d < 10,
    ensures
        c == (d + 48) as char,
{
    match d {
        0 => '0',
        1 => '1',
        2 => '2',
        3 => '3',
        4 => '4',
        5 => '5',
        6 => '6',
        7 => '7',
        8 => '8',
        _ => '9',
    }
}

/// The RFC 3339 text of a UTC time given in milliseconds since the epoch.
pub uninterp spec fn rfc3339_text(ms: i64) -> Seq<char>;

/// `chrono::DateTime::<Utc>::from_timestamp_millis(ms)` rendered with `to_rfc3339`; a time
/// outside chrono's range renders as the empty text. Stated: the text is the named
/// `rfc3339_text` of the time.
#[verifier::external_body]
fn rfc3339_of(ms: i64) -> (r: String)
    ensures
        r@ == rfc3339_text(ms),
{
    chrono::DateTime::<chrono::Utc>::from_timestamp_millis(ms).map(|t| t.to_rfc3339()).unwrap_or_default()
}

/// The breaker of `endpoint` in a list of breakers by endpoint.
pub open spec fn breaker_index(bs: Seq<(String, CircuitBreaker)>, endpoint: Seq<char>) -> Option<int> {
    if exists|i: int| 0 <= i < bs.len() && (#[trigger] bs[i]).0@ == endpoint {
        Some(choose|i: int| 0 <= i < bs.len() && (#[trigger] bs[i]).0@ == endpoint)
    } else {
        None
    }
}

/// A breaker found at `i` among unique endpoints is the one `breaker_index` names.
proof fn lemma_breaker_found(bs: Seq<(String, CircuitBreaker)>, endpoint: Seq<char>, i: int)
    requires
        endpoints_unique(bs),
        0 <= i < bs.len(),
        bs[i].0@ == endpoint,
    ensures
        breaker_index(bs, endpoint) == Some(i),
{
    assert(bs[i].0@ == endpoint);
    let c = choose|j: int| 0 <= j < bs.len() && (#[trigger] bs[j]).0@ == endpoint;
    if c != i {
        if c < i {
            assert(bs[c].0@ != bs[i].0@);
        } else {
            assert(bs[i].0@ != bs[c].0@);
        }
    }
}

/// No endpoint has two breakers.
pub open spec fn endpoints_unique(bs: Seq<(String, CircuitBreaker)>) -> bool {
    forall|i: int, j: int| 0 <= i < j < bs.len() ==> bs[i].0@ != bs[j].0@
}

/// The gateway's state: configuration, metrics and a circuit breaker per endpoint.
pub struct ApiGatewayState {
    pub config: ApiGatewayConfig,
    pub metrics: GatewayMetrics,
    pub circuit_breakers: Vec<(String, CircuitBreaker)>,
}

impl ApiGatewayState {
    /// The metrics and breakers are well formed.
    pub open spec fn wf(&self) -> bool {
        self.metrics.wf() && endpoints_unique(self.circuit_breakers@)
    }

    /// A gateway with the configuration, empty metrics and no breakers.
    pub fn new(config: ApiGatewayConfig) -> (g: Self)
        ensures
            g.wf(),
            g.config == config,
            g.circuit_breakers@.len() == 0,
            forall|k: Seq<char>| #[trigger] g.metrics.request_count.count(k) == 0,
            forall|k: Seq<char>| #[trigger] g.metrics.error_count.count(k) == 0,
            forall|k: Seq<char>| #[trigger] g.metrics.latency_sum.count(k) == 0,
            forall|k: Seq<char>| #[trigger] g.metrics.version_usage.count(k) == 0,
    {
        ApiGatewayState { config, metrics: GatewayMetrics::new(), circuit_breakers: Vec::new() }
    }

    /// The API version a request asks for.
    pub fn extract_api_version(&self, request: &GatewayRequest) -> (r: Result<String, StatusCode>)
        ensures
            match r {
                Ok(v) => version_of(
                    self.config.versioning.extraction_method,
                    self.config.versioning.default_version@,
                    *request,
                    match request.query {
                        Some(q) => form_pairs(q@),
                        None => Seq::empty(),
                    },
                ) == Ok::<Seq<char>, StatusCode>(v@),
                Err(e) => version_of(
                    self.config.versioning.extraction_method,
                    self.config.versioning.default_version@,
                    *request,
                    match request.query {
                        Some(q) => form_pairs(q@),
                        None => Seq::empty(),
                    },
                ) == Err::<Seq<char>, StatusCode>(e),
            },
    {
        let default = self.config.versioning.default_version.clone();
        match &self.config.versioning.extraction_method {
            VersionExtractionMethod::Header(name) => match find_header(&request.headers, name.as_str()) {
                Some(v) => Ok(string_from_chars(&v)),
                None => Err(400),
            },
            VersionExtractionMethod::QueryParameter(param) => match &request.query {
                Some(q) => {
                    let pairs = parse_query_pairs(q.as_str());
                    let pc = chars_of(param.as_str());
                    let mut i = pairs.len();
                    assert(form_pairs(q@).subrange(0, pairs@.len() as int) =~= form_pairs(q@));
                    while i > 0
                        invariant
                            i <= pairs@.len(),
                            pc@ == param@,
                            self.config.versioning.extraction_method == VersionExtractionMethod::QueryParameter(*param),
                            request.query == Some(*q),
                            pairs@.len() == form_pairs(q@).len(),
                            forall|k: int|
                                0 <= k < pairs@.len() ==> (#[trigger] pairs@[k]).0@ == form_pairs(q@)[k].0 && pairs@[k].1@
                                    == form_pairs(q@)[k].1,
                            last_pair_value(form_pairs(q@), param@) == last_pair_value(
                                form_pairs(q@).subrange(0, i as int),
                                param@,
                            ),
                        decreases i,
                    {
                        let key = chars_of(pairs[i - 1].0.as_str());
                        let ghost fp = form_pairs(q@).subrange(0, i as int);
                        assert(fp.last() == form_pairs(q@)[i - 1]);
                        assert(fp.drop_last() =~= form_pairs(q@).subrange(0, i - 1));
                        if crate::text::vec_eq(&key, &pc) {
                            let v = pairs[i - 1].1.clone();
                            assert(fp.last().0 == param@);
                            assert(last_pair_value(fp, param@) == Some(fp.last().1));
                            assert(v@ == fp.last().1);
                            return Ok(v);
                        }
                        i = i - 1;
                    }
                    Err(400)
                },
                None => Ok(default),
            },
            VersionExtractionMethod::PathPrefix => match extract_path_version(request.path.as_str()) {
                Some(v) => Ok(v),
                None => Ok(default),
            },
            VersionExtractionMethod::AcceptHeader => {
                proof {
                    reveal_strlit("accept");
                }
                match find_header(&request.headers, "accept") {
                    Some(a) => {
                        let text = string_from_chars(&a);
                        match extract_accept_version(text.as_str()) {
                            Some(v) => Ok(v),
                            None => Ok(default),
                        }
                    },
                    None => Ok(default),
                }
            },
        }
    }

    /// Whether the configuration supports `version`.
    pub fn validate_api_version(&self, version: &str) -> (r: bool)
        ensures
            r == exists|k: int|
                0 <= k < self.config.versioning.supported_versions@.len()
                    && #[trigger] self.config.versioning.supported_versions@[k]@ == version@,
    {
        let v = chars_of(version);
        crate::text::string_in(&self.config.versioning.supported_versions, &v)
    }
}


/// The first entry of a static key list whose key is `key`.
pub open spec fn key_entry(keys: Seq<(String, ApiKeyInfo)>, key: Seq<char>) -> Option<int>
    decreases keys.len(),
{
    if keys.len() == 0 {
        None
    } else {
        match key_entry(keys.drop_last(), key) {
            Some(i) => Some(i),
            None => if keys.last().0@ == key { Some(keys.len() - 1) } else { None },
        }
    }
}

/// The API key check: a missing key is refused (401); a static key list accepts a listed
/// key that has not expired at `now`; a database or Redis check accepts any key.
pub open spec fn api_key_verdict(cfg: ApiKeyConfig, headers: Seq<(String, String)>, now: i64) -> Result<(), StatusCode> {
    match header_value(headers, cfg.header_name@) {
        None => Err(401),
        Some(key) => match cfg.validation_strategy {
            ApiKeyValidationStrategy::Static(keys) => match key_entry(keys@, key) {
                Some(i) => match keys@[i].1.expires_at {
                    Some(t) => if now > t { Err(401) } else { Ok(()) },
                    None => Ok(()),
                },
                None => Err(401),
            },
            _ => Ok(()),
        },
    }
}

/// The content type check: a request with a `content-type` header is refused (415) unless
/// the type begins with an allowed one.
pub open spec fn content_type_verdict(allowed: Seq<String>, headers: Seq<(String, String)>) -> Result<(), StatusCode> {
    match header_value(headers, "content-type"@) {
        Some(ct) => if exists|k: int| 0 <= k < allowed.len() && starts_with(ct, #[trigger] allowed[k]@) {
            Ok(())
        } else {
            Err(415)
        },
        None => Ok(()),
    }
}

/// The size check: a readable `content-length` above the maximum is refused (413).
pub open spec fn size_verdict(max: usize, headers: Seq<(String, String)>) -> Result<(), StatusCode> {
    match header_value(headers, "content-length"@) {
        Some(cl) => match usize_text_value(cl) {
            Some(n) => if n > max { Err(413) } else { Ok(()) },
            None => Ok(()),
        },
        None => Ok(()),
    }
}

/// The methods whose bodies have a content type checked.
pub open spec fn has_body(method: Seq<char>) -> bool {
    method == "POST"@ || method == "PUT"@ || method == "PATCH"@
}

/// The security checks in order: the API key (where enabled), the content type (for
/// methods with a body), the size.
pub open spec fn security_verdict(config: ApiGatewayConfig, req: GatewayRequest, now: i64) -> Result<(), StatusCode> {
    if config.security.api_key_config.enabled && api_key_verdict(config.security.api_key_config, req.headers@, now) is Err {
        api_key_verdict(config.security.api_key_config, req.headers@, now)
    } else if has_body(req.method@) && content_type_verdict(
        config.security.content_security.allowed_content_types@,
        req.headers@,
    ) is Err {
        content_type_verdict(config.security.content_security.allowed_content_types@, req.headers@)
    } else {
        size_verdict(config.validation.max_request_size, req.headers@)
    }
}

impl ApiGatewayState {
    /// Checks the request's API key at `now`.
    pub fn validate_api_key_at(&self, request: &GatewayRequest, now: i64) -> (r: Result<(), StatusCode>)
        ensures
            r == api_key_verdict(self.config.security.api_key_config, request.headers@, now),
    {
        let cfg = &self.config.security.api_key_config;
        let key = match find_header(&request.headers, cfg.header_name.as_str()) {
            Some(k) => k,
            None => return Err(401),
        };
        match &cfg.validation_strategy {
            ApiKeyValidationStrategy::Static(keys) => {
                let mut i: usize = 0;
                while i < keys.len()
                    invariant
                        i <= keys@.len(),
                        self.config.security.api_key_config.validation_strategy == ApiKeyValidationStrategy::Static(*keys),
                        header_value(request.headers@, self.config.security.api_key_config.header_name@) == Some(key@),
                        key_entry(keys@.subrange(0, i as int), key@) is None,
                    decreases keys@.len() - i,
                {
                    proof {
                        assert(keys@.subrange(0, i + 1).drop_last() =~= keys@.subrange(0, i as int));
                    }
                    let k = chars_of(keys[i].0.as_str());
                    if crate::text::vec_eq(&k, &key) {
                        proof {
                            lemma_key_entry_prefix(keys@, key@, (i + 1) as int);
                        }
                        match keys[i].1.expires_at {
                            Some(t) => {
                                if now > t {
                                    return Err(401);
                                }
                            },
                            None => {},
                        }
                        return Ok(());
                    }
                    i = i + 1;
                }
                assert(keys@.subrange(0, keys@.len() as int) =~= keys@);
                Err(401)
            },
            _ => Ok(()),
        }
    }

    /// Checks the request's content type against the allowed ones.
    pub fn validate_content_type(&self, request: &GatewayRequest) -> (r: Result<(), StatusCode>)
        ensures
            r == content_type_verdict(self.config.security.content_security.allowed_content_types@, request.headers@),
    {
        proof {
            reveal_strlit("content-type");
        }
        let ct = match find_header(&request.headers, "content-type") {
            Some(c) => c,
            None => return Ok(()),
        };
        let allowed = &self.config.security.content_security.allowed_content_types;
        let mut k: usize = 0;
        while k < allowed.len()
            invariant
                k <= allowed@.len(),
                allowed@ == self.config.security.content_security.allowed_content_types@,
                header_value(request.headers@, "content-type"@) == Some(ct@),
                forall|m: int| 0 <= m < k ==> !starts_with(ct@, #[trigger] allowed@[m]@),
            decreases allowed@.len() - k,
        {
            let a = chars_of(allowed[k].as_str());
            if vec_starts_with(&ct, &a) {
                return Ok(());
            }
            k = k + 1;
        }
        Err(415)
    }

    /// Checks the request's declared size.
    pub fn validate_request_size(&self, request: &GatewayRequest) -> (r: Result<(), StatusCode>)
        ensures
            r == size_verdict(self.config.validation.max_request_size, request.headers@),
    {
        proof {
            reveal_strlit("content-length");
        }
        match find_header(&request.headers, "content-length") {
            Some(cl) => match parse_usize(&cl) {
                Some(n) => {
                    if n > self.config.validation.max_request_size {
                        Err(413)
                    } else {
                        Ok(())
                    }
                },
                None => Ok(()),
            },
            None => Ok(()),
        }
    }

    /// Runs the security checks at `now`.
    pub fn validate_security_at(&self, request: &GatewayRequest, now: i64) -> (r: Result<(), StatusCode>)
        ensures
            r == security_verdict(self.config, *request, now),
    {
        if self.config.security.api_key_config.enabled {
            match self.validate_api_key_at(request, now) {
                Ok(()) => {},
                Err(e) => return Err(e),
            }
        }
        let m = chars_of(request.method.as_str());
        let post = chars_of("POST");
        let put = chars_of("PUT");
        let patch = chars_of("PATCH");
        if crate::text::vec_eq(&m, &post) || crate::text::vec_eq(&m, &put) || crate::text::vec_eq(&m, &patch) {
            match self.validate_content_type(request) {
                Ok(()) => {},
                Err(e) => return Err(e),
            }
        }
        self.validate_request_size(request)
    }

    /// The index of the breaker of `endpoint`, made (closed) where there is none.
    fn breaker_for(&mut self, endpoint: &str) -> (i: usize)
        requires
            old(self).wf(),
        ensures
            final(self).wf(),
            i < final(self).circuit_breakers@.len(),
            final(self).circuit_breakers@[i as int].0@ == endpoint@,
            final(self).config == old(self).config,
            final(self).metrics == old(self).metrics,
            breaker_index(old(self).circuit_breakers@, endpoint@) matches Some(j) ==> j == i && final(self).circuit_breakers@
                == old(self).circuit_breakers@,
            breaker_index(old(self).circuit_breakers@, endpoint@) is None ==> i == old(self).circuit_breakers@.len()
                && final(self).circuit_breakers@.drop_last() == old(self).circuit_breakers@
                && final(self).circuit_breakers@[i as int].1.config == old(self).config.throttling.circuit_breaker
                && final(self).circuit_breakers@[i as int].1@.state == crate::circuit::CircuitBreakerState::Closed,
    {
        let e = chars_of(endpoint);
        let mut i: usize = 0;
        while i < self.circuit_breakers.len()
            invariant
                i <= self.circuit_breakers@.len(),
                e@ == endpoint@,
                endpoints_unique(self.circuit_breakers@),
                self.metrics.wf(),
                self.config == old(self).config,
                self.metrics == old(self).metrics,
                self.circuit_breakers@ == old(self).circuit_breakers@,
                forall|k: int| 0 <= k < i ==> self.circuit_breakers@[k].0@ != endpoint@,
            decreases self.circuit_breakers@.len() - i,
        {
            let k = chars_of(self.circuit_breakers[i].0.as_str());
            if crate::text::vec_eq(&k, &e) {
                proof {
                    let c = choose|j: int| 0 <= j < self.circuit_breakers@.len() && (#[trigger] self.circuit_breakers@[j]).0@ == endpoint@;
                    if c != i {
                        if c < i {
                            assert(self.circuit_breakers@[c].0@ != endpoint@);
                        } else {
                            assert(self.circuit_breakers@[i as int].0@ != self.circuit_breakers@[c].0@);
                        }
                    }
                }
                return i;
            }
            i = i + 1;
        }
        let cb = CircuitBreaker::new(self.config.throttling.circuit_breaker);
        let ghost before = self.circuit_breakers@;
        self.circuit_breakers.push((String::from_str(endpoint), cb));
        proof {
            assert(self.circuit_breakers@.drop_last() =~= before);
            assert forall|a: int, b: int| 0 <= a < b < self.circuit_breakers@.len() implies self.circuit_breakers@[a].0@
                != self.circuit_breakers@[b].0@ by {
                assert(self.circuit_breakers@[a] == before[a]);
                if b < before.len() {
                    assert(self.circuit_breakers@[b] == before[b]);
                }
            }
        }
        self.circuit_breakers.len() - 1
    }

    /// Checks the breaker of `endpoint` at `now` (making it where there is none): an open
    /// circuit refuses the request (503).
    pub fn check_circuit_breaker_at(&mut self, endpoint: &str, now: i64) -> (r: Result<(), StatusCode>)
        requires
            old(self).wf(),
        ensures
            final(self).wf(),
            final(self).config == old(self).config,
            exists|i: int|
                0 <= i < final(self).circuit_breakers@.len() && (#[trigger] final(self).circuit_breakers@[i]).0@ == endpoint@
                    && (r is Err <==> final(self).circuit_breakers@[i].1@.state == crate::circuit::CircuitBreakerState::Open)
                    && (r is Err ==> r == Err::<(), StatusCode>(503)),
    {
        let i = self.breaker_for(endpoint);
        let ghost mid = self.circuit_breakers@;
        let mut entry = self.circuit_breakers.remove(i);
        let ghost name = entry.0;
        let open = entry.1.is_open_at(now);
        let ghost st = entry.1@.state;
        self.circuit_breakers.insert(i, entry);
        proof {
            assert(self.circuit_breakers@ =~= mid.update(i as int, self.circuit_breakers@[i as int]));
            assert(self.circuit_breakers@[i as int].0 == name);
            assert forall|a: int, b: int| 0 <= a < b < self.circuit_breakers@.len() implies self.circuit_breakers@[a].0@
                != self.circuit_breakers@[b].0@ by {
                assert(self.circuit_breakers@[a].0 == mid[a].0);
                assert(self.circuit_breakers@[b].0 == mid[b].0);
            }
            assert(self.circuit_breakers@[i as int].1@.state == st);
        }
        if open {
            Err(503)
        } else {
            Ok(())
        }
    }
}

/// A key found in a prefix is the key found in the whole list.
proof fn lemma_key_entry_prefix(keys: Seq<(String, ApiKeyInfo)>, key: Seq<char>, i: int)
    requires
        0 <= i <= keys.len(),
        key_entry(keys.subrange(0, i), key) is Some,
    ensures
        key_entry(keys, key) == key_entry(keys.subrange(0, i), key),
    decreases keys.len() - i,
{
    if i < keys.len() {
        assert(keys.subrange(0, i + 1).drop_last() =~= keys.subrange(0, i));
        lemma_key_entry_prefix(keys, key, i + 1);
    } else {
        assert(keys.subrange(0, i) =~= keys);
    }
}


/// The metrics `a` after `b` counted a request as `record_request` does: one more request
/// and version use, its latency, and an error for a failure, every other counter as it
/// was; where a counter would pass its maximum, nothing changes.
pub open spec fn request_recorded(
    b: GatewayMetrics,
    a: GatewayMetrics,
    endpoint: Seq<char>,
    version: Seq<char>,
    success: bool,
    duration: u64,
) -> bool {
    if b.request_count.count(endpoint) < u64::MAX && b.version_usage.count(version) < u64::MAX
        && b.latency_sum.count(endpoint) + duration <= u64::MAX && (!success ==> b.error_count.count(endpoint)
        < u64::MAX) {
        &&& a.wf()
        &&& a.request_count.count(endpoint) == b.request_count.count(endpoint) + 1
        &&& a.version_usage.count(version) == b.version_usage.count(version) + 1
        &&& a.latency_sum.count(endpoint) == b.latency_sum.count(endpoint) + duration
        &&& a.error_count.count(endpoint) == b.error_count.count(endpoint) + (if success { 0nat } else { 1nat })
        &&& forall|k: Seq<char>| k != endpoint ==> #[trigger] a.request_count.count(k) == b.request_count.count(k)
        &&& forall|k: Seq<char>| k != endpoint ==> #[trigger] a.error_count.count(k) == b.error_count.count(k)
        &&& forall|k: Seq<char>| k != endpoint ==> #[trigger] a.latency_sum.count(k) == b.latency_sum.count(k)
        &&& forall|k: Seq<char>| k != version ==> #[trigger] a.version_usage.count(k) == b.version_usage.count(k)
    } else {
        a == b
    }
}

/// The metrics `a` after `b` counted an error `status` of `endpoint` under its error key;
/// a counter at its maximum stays there, and nothing else changes.
pub open spec fn error_recorded(b: GatewayMetrics, a: GatewayMetrics, endpoint: Seq<char>, status: u16) -> bool {
    let key = error_key(endpoint, status);
    if b.error_count.count(key) < u64::MAX {
        &&& a.wf()
        &&& a.error_count.count(key) == b.error_count.count(key) + 1
        &&& forall|k: Seq<char>| k != key ==> #[trigger] a.error_count.count(k) == b.error_count.count(k)
        &&& a.request_count == b.request_count
        &&& a.version_usage == b.version_usage
        &&& a.latency_sum == b.latency_sum
    } else {
        a == b
    }
}

/// The breakers `after` once the breaker of `endpoint`, if there is one, counted a success
/// (a breaker whose success count is at its maximum stays as it was); every other breaker
/// is unchanged.
pub open spec fn breaker_success_recorded(
    before: Seq<(String, CircuitBreaker)>,
    after: Seq<(String, CircuitBreaker)>,
    endpoint: Seq<char>,
) -> bool {
    match breaker_index(before, endpoint) {
        None => after == before,
        Some(i) => {
            &&& after.len() == before.len()
            &&& forall|k: int| 0 <= k < before.len() && k != i ==> #[trigger] after[k] == before[k]
            &&& after[i].0 == before[i].0
            &&& after[i].1.config == before[i].1.config
            &&& after[i].1@ == if before[i].1.success_count < u32::MAX {
                before[i].1@.after_success(before[i].1.config)
            } else {
                before[i].1@
            }
        },
    }
}

/// The breakers `after` once the breaker of `endpoint`, if there is one, counted a failure
/// at `now` (a breaker holding the most failure times it can stays as it was); every other
/// breaker is unchanged.
pub open spec fn breaker_failure_recorded(
    before: Seq<(String, CircuitBreaker)>,
    after: Seq<(String, CircuitBreaker)>,
    endpoint: Seq<char>,
    now: i64,
) -> bool {
    match breaker_index(before, endpoint) {
        None => after == before,
        Some(i) => {
            &&& after.len() == before.len()
            &&& forall|k: int| 0 <= k < before.len() && k != i ==> #[trigger] after[k] == before[k]
            &&& after[i].0 == before[i].0
            &&& after[i].1.config == before[i].1.config
            &&& after[i].1@ == if before[i].1.failure_times@.len() < u32::MAX {
                before[i].1@.after_failure(before[i].1.config, now)
            } else {
                before[i].1@
            }
        },
    }
}

/// The key under which an error status of an endpoint is counted: `endpoint:status`.
pub open spec fn error_key(endpoint: Seq<char>, status: u16) -> Seq<char> {
    endpoint + seq![':'] + decimal_text(status as nat)
}

impl GatewayMetrics {
    /// Counts an error `status` of `endpoint` under `endpoint:status`; a counter at its
    /// maximum stays there.
    pub fn record_error(&mut self, endpoint: &str, status: u16)
        requires
            old(self).wf(),
        ensures
            final(self).wf(),
            error_recorded(*old(self), *final(self), endpoint@, status),
    {
        let mut key = String::from_str(endpoint);
        key.append(":");
        let code = decimal_string(status as u64);
        key.append(code.as_str());
        proof {
            reveal_strlit(":");
            assert(key@ =~= error_key(endpoint@, status));
        }
        if self.error_count.get(key.as_str()) < u64::MAX {
            self.error_count.add(key.as_str(), 1);
        }
    }

    /// Counts a request as `record_request` does where no counter would pass its maximum;
    /// otherwise nothing changes.
    pub fn record_request_saturating(&mut self, endpoint: &str, version: &str, success: bool, duration: u64)
        requires
            old(self).wf(),
        ensures
            final(self).wf(),
            request_recorded(*old(self), *final(self), endpoint@, version@, success, duration),
    {
        let rc = self.request_count.get(endpoint);
        let vu = self.version_usage.get(version);
        let ls = self.latency_sum.get(endpoint);
        let ec = self.error_count.get(endpoint);
        if rc < u64::MAX && vu < u64::MAX && ls <= u64::MAX - duration && (success || ec < u64::MAX) {
            self.record_request(endpoint, version, success, duration);
        }
    }
}

impl ApiGatewayState {
    /// The checks before a request is handled at `now`: its version must be read and
    /// supported (400), the security checks must pass, and, with throttling on, the
    /// endpoint's circuit must not be open (503). The version is returned.
    pub fn check_request_at(&mut self, request: &GatewayRequest, now: i64) -> (r: Result<String, StatusCode>)
        requires
            old(self).wf(),
        ensures
            final(self).wf(),
            final(self).config == old(self).config,
            match version_of(
                old(self).config.versioning.extraction_method,
                old(self).config.versioning.default_version@,
                *request,
                match request.query {
                    Some(q) => form_pairs(q@),
                    None => Seq::empty(),
                },
            ) {
                Err(e) => r == Err::<String, StatusCode>(e),
                Ok(v) => if !(exists|k: int|
                    0 <= k < old(self).config.versioning.supported_versions@.len()
                        && #[trigger] old(self).config.versioning.supported_versions@[k]@ == v) {
                    r == Err::<String, StatusCode>(400)
                } else if security_verdict(old(self).config, *request, now) is Err {
                    r == Err::<String, StatusCode>(security_verdict(old(self).config, *request, now)->Err_0)
                } else if !old(self).config.throttling.enabled {
                    r matches Ok(s) && s@ == v
                } else {
                    (r is Ok ==> r->Ok_0@ == v) && (r is Err ==> r == Err::<String, StatusCode>(503))
                },
            },
    {
        let version = match self.extract_api_version(request) {
            Ok(v) => v,
            Err(e) => return Err(e),
        };
        if !self.validate_api_version(version.as_str()) {
            return Err(400);
        }
        match self.validate_security_at(request, now) {
            Ok(()) => {},
            Err(e) => return Err(e),
        }
        if self.config.throttling.enabled {
            match self.check_circuit_breaker_at(request.path.as_str(), now) {
                Ok(()) => {},
                Err(e) => return Err(e),
            }
        }
        Ok(version)
    }

    /// Records a handled request to `endpoint` that took `duration` milliseconds: counted
    /// in the metrics, and, where it succeeded and throttling is on, as a success of the
    /// endpoint's breaker; a failure also counts its status and, with throttling on, as a
    /// failure of the breaker at `now`.
    pub fn record_outcome_at(&mut self, endpoint: &str, version: &str, outcome: Result<(), StatusCode>, duration: u64, now: i64)
        requires
            old(self).wf(),
        ensures
            final(self).wf(),
            final(self).config == old(self).config,
            match outcome {
                Ok(()) => {
                    &&& request_recorded(old(self).metrics, final(self).metrics, endpoint@, version@, true, duration)
                    &&& if old(self).config.throttling.enabled {
                        breaker_success_recorded(old(self).circuit_breakers@, final(self).circuit_breakers@, endpoint@)
                    } else {
                        final(self).circuit_breakers@ == old(self).circuit_breakers@
                    }
                },
                Err(status) => {
                    &&& exists|mid: GatewayMetrics|
                        #[trigger] request_recorded(old(self).metrics, mid, endpoint@, version@, false, duration)
                            && error_recorded(mid, final(self).metrics, endpoint@, status)
                    &&& if old(self).config.throttling.enabled {
                        breaker_failure_recorded(old(self).circuit_breakers@, final(self).circuit_breakers@, endpoint@, now)
                    } else {
                        final(self).circuit_breakers@ == old(self).circuit_breakers@
                    }
                },
            },
    {
        match outcome {
            Ok(()) => {
                self.metrics.record_request_saturating(endpoint, version, true, duration);
                if self.config.throttling.enabled {
                    self.record_breaker_success(endpoint);
                }
            },
            Err(status) => {
                self.metrics.record_request_saturating(endpoint, version, false, duration);
                let ghost mid = self.metrics;
                self.metrics.record_error(endpoint, status);
                if self.config.throttling.enabled {
                    self.record_breaker_failure_at(endpoint, now);
                }
                assert(request_recorded(old(self).metrics, mid, endpoint@, version@, false, duration));
            },
        }
    }

    /// Records a success with the breaker of `endpoint`, if it has one.
    fn record_breaker_success(&mut self, endpoint: &str)
        requires
            old(self).wf(),
        ensures
            final(self).wf(),
            final(self).config == old(self).config,
            final(self).metrics == old(self).metrics,
            breaker_success_recorded(old(self).circuit_breakers@, final(self).circuit_breakers@, endpoint@),
    {
        let e = chars_of(endpoint);
        let mut i: usize = 0;
        while i < self.circuit_breakers.len()
            invariant
                i <= self.circuit_breakers@.len(),
                e@ == endpoint@,
                self.wf(),
                self.config == old(self).config,
                self.metrics == old(self).metrics,
                self.circuit_breakers@ == old(self).circuit_breakers@,
                forall|k: int| 0 <= k < i ==> self.circuit_breakers@[k].0@ != endpoint@,
            decreases self.circuit_breakers@.len() - i,
        {
            let k = chars_of(self.circuit_breakers[i].0.as_str());
            if crate::text::vec_eq(&k, &e) {
                let ghost mid = self.circuit_breakers@;
                proof {
                    lemma_breaker_found(mid, endpoint@, i as int);
                }
                let mut entry = self.circuit_breakers.remove(i);
                if entry.1.success_count < u32::MAX {
                    entry.1.record_success();
                }
                self.circuit_breakers.insert(i, entry);
                proof {
                    assert(self.circuit_breakers@ =~= mid.update(i as int, self.circuit_breakers@[i as int]));
                    assert forall|a: int, b: int| 0 <= a < b < self.circuit_breakers@.len() implies self.circuit_breakers@[a].0@
                        != self.circuit_breakers@[b].0@ by {
                        assert(self.circuit_breakers@[a].0 == mid[a].0);
                        assert(self.circuit_breakers@[b].0 == mid[b].0);
                    }
                }
                return;
            }
            i = i + 1;
        }
    }

    /// Records a failure at `now` with the breaker of `endpoint`, if it has one.
    fn record_breaker_failure_at(&mut self, endpoint: &str, now: i64)
        requires
            old(self).wf(),
        ensures
            final(self).wf(),
            final(self).config == old(self).config,
            final(self).metrics == old(self).metrics,
            breaker_failure_recorded(old(self).circuit_breakers@, final(self).circuit_breakers@, endpoint@, now),
    {
        let e = chars_of(endpoint);
        let mut i: usize = 0;
        while i < self.circuit_breakers.len()
            invariant
                i <= self.circuit_breakers@.len(),
                e@ == endpoint@,
                self.wf(),
                self.config == old(self).config,
                self.metrics == old(self).metrics,
                self.circuit_breakers@ == old(self).circuit_breakers@,
                forall|k: int| 0 <= k < i ==> self.circuit_breakers@[k].0@ != endpoint@,
            decreases self.circuit_breakers@.len() - i,
        {
            let k = chars_of(self.circuit_breakers[i].0.as_str());
            if crate::text::vec_eq(&k, &e) {
                let ghost mid = self.circuit_breakers@;
                proof {
                    lemma_breaker_found(mid, endpoint@, i as int);
                }
                let mut entry = self.circuit_breakers.remove(i);
                if entry.1.failure_times.len() < u32::MAX as usize {
                    entry.1.record_failure_at(now);
                }
                self.circuit_breakers.insert(i, entry);
                proof {
                    assert(self.circuit_breakers@ =~= mid.update(i as int, self.circuit_breakers@[i as int]));
                    assert forall|a: int, b: int| 0 <= a < b < self.circuit_breakers@.len() implies self.circuit_breakers@[a].0@
                        != self.circuit_breakers@[b].0@ by {
                        assert(self.circuit_breakers@[a].0 == mid[a].0);
                        assert(self.circuit_breakers@[b].0 == mid[b].0);
                    }
                }
                return;
            }
            i = i + 1;
        }
    }

    /// The headers the gateway adds to a response: the version, the request id and the
    /// gateway's name, and for a deprecated version its sunset time and a deprecation mark.
    pub fn gateway_headers(&self, version: &str, request_id: &str) -> (r: Vec<(String, String)>)
        ensures
            r@.len() >= 3,
            r@[0].0@ == "X-API-Version"@ && r@[0].1@ == version@,
            r@[1].0@ == "X-Request-ID"@ && r@[1].1@ == request_id@,
            r@[2].0@ == "X-Gateway"@ && r@[2].1@ == "MEV-Shield-v1"@,
            r@.len() == 3 || r@.len() == 5,
            r@.len() == 5 ==> r@[3].0@ == "Sunset"@ && r@[4].0@ == "Deprecation"@ && r@[4].1@ == "true"@ && exists|k: int|
                0 <= k < self.config.versioning.deprecated_versions@.len()
                    && (#[trigger] self.config.versioning.deprecated_versions@[k]).0@ == version@ && r@[3].1@ == rfc3339_text(
                    self.config.versioning.deprecated_versions@[k].1,
                ),
            r@.len() == 3 ==> forall|k: int|
                0 <= k < self.config.versioning.deprecated_versions@.len() ==> (
                #[trigger] self.config.versioning.deprecated_versions@[k]).0@ != version@,
    {
        let mut h: Vec<(String, String)> = Vec::new();
        h.push((String::from_str("X-API-Version"), String::from_str(version)));
        h.push((String::from_str("X-Request-ID"), String::from_str(request_id)));
        h.push((String::from_str("X-Gateway"), String::from_str("MEV-Shield-v1")));
        let v = chars_of(version);
        let deprecated = &self.config.versioning.deprecated_versions;
        let mut k: usize = 0;
        while k < deprecated.len()
            invariant
                k <= deprecated@.len(),
                v@ == version@,
                deprecated@ == self.config.versioning.deprecated_versions@,
                h@.len() == 3,
                h@[0].0@ == "X-API-Version"@ && h@[0].1@ == version@,
                h@[1].0@ == "X-Request-ID"@ && h@[1].1@ == request_id@,
                h@[2].0@ == "X-Gateway"@ && h@[2].1@ == "MEV-Shield-v1"@,
                forall|m: int| 0 <= m < k ==> (#[trigger] deprecated@[m]).0@ != version@,
            decreases deprecated@.len() - k,
        {
            let name = chars_of(deprecated[k].0.as_str());
            if crate::text::vec_eq(&name, &v) {
                h.push((String::from_str("Sunset"), rfc3339_of(deprecated[k].1)));
                h.push((String::from_str("Deprecation"), String::from_str("true")));
                return h;
            }
            k = k + 1;
        }
        h
    }
}

} // verus!

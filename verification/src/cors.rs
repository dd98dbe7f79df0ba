//! CORS policy: which origins, methods and headers a configuration allows, by
//! environment, and the headers a response carries. Methods are their upper-case names;
//! URLs are taken apart by the `url` crate.
use vstd::prelude::*;
use crate::gateway::{decimal_string, decimal_text, find_header, header_value, StatusCode};
use crate::text::{
    trim, trim_chars,
    contains_seq, contains_text,
    ascii_lower, char_code, char_is_ascii_digit, char_is_ascii_upper, chars_of, is_ascii_digit, contains_lower, ends_with, find_lower, starts_with, string_from_chars, string_in, sub_chars,
    vec_ends_with, vec_eq, vec_starts_with,
};

verus! {

/// Environment-specific CORS settings.
#[derive(Debug, Clone)]
pub enum CorsEnvironment {
    Development { allow_localhost: bool, localhost_ports: Vec<u16> },
    Production { strict_origin_check: bool, require_https: bool },
    Testing { allow_any_origin: bool },
}

/// CORS configuration.
#[derive(Debug, Clone)]
pub struct CorsConfig {
    /// Origins allowed exactly (no two alike).
    pub allowed_origins: Vec<String>,
    /// Origin patterns such as `https://*.example.com`.
    pub allowed_origin_patterns: Vec<String>,
    /// Allowed methods by upper-case name.
    pub allowed_methods: Vec<String>,
    pub allowed_headers: Vec<String>,
    pub exposed_headers: Vec<String>,
    pub allow_credentials: bool,
    pub max_age: Option<u32>,
    pub validate_origins: bool,
    pub environment: CorsEnvironment,
}

/// The parts of a URL that the policy reads: scheme, host and explicit port.
#[derive(Debug, Clone)]
pub struct UrlParts {
    pub scheme: String,
    pub host: Option<String>,
    pub port: Option<u16>,
}

/// What `url::Url::parse` makes of a text: nothing where it does not parse, else the
/// scheme, the host text and the explicit port (none for the scheme's default).
pub uninterp spec fn url_parse(s: Seq<char>) -> Option<(Seq<char>, Option<Seq<char>>, Option<u16>)>;

/// `url::Url::parse`, then `scheme()`, `host_str()` and `port()` of the result. Stated: the
/// parts are the named `url_parse` of the text.
#[verifier::external_body]
fn parse_url(s: &str) -> (r: Option<UrlParts>)
    ensures
        match url_parse(s@) {
            None => r is None,
            Some(p) => r matches Some(u) && u.scheme@ == p.0 && u.port == p.2 && match p.1 {
                Some(h) => u.host matches Some(x) && x@ == h,
                None => u.host is None,
            },
        },
{
    let u = url::Url::parse(s).ok()?;
    Some(UrlParts { scheme: u.scheme().to_string(), host: u.host_str().map(|h| h.to_string()), port: u.port() })
}

/// Adds `s` to a list that holds no two alike.
fn insert_unique(list: &mut Vec<String>, s: String)
    ensures
        (exists|k: int| 0 <= k < old(list)@.len() && #[trigger] old(list)@[k]@ == s@) ==> final(list)@ == old(list)@,
        !(exists|k: int| 0 <= k < old(list)@.len() && #[trigger] old(list)@[k]@ == s@) ==> final(list)@ == old(list)@.push(s),
{
    let c = chars_of(s.as_str());
    if !string_in(list, &c) {
        list.push(s);
    }
}

/// The origins the default configuration allows.
pub open spec fn default_origins() -> Seq<Seq<char>> {
    seq!["https://mev-shield.aurex.in"@, "https://app.mev-shield.aurex.in"@, "https://admin.mev-shield.aurex.in"@]
}

/// The origin patterns of every configuration.
pub open spec fn default_origin_patterns() -> Seq<Seq<char>> {
    seq!["https://*.mev-shield.aurex.in"@]
}

/// The methods every configuration allows.
pub open spec fn default_methods() -> Seq<Seq<char>> {
    seq!["GET"@, "POST"@, "PUT"@, "DELETE"@, "OPTIONS"@]
}

/// The request headers every configuration allows.
pub open spec fn default_allowed_headers() -> Seq<Seq<char>> {
    seq![
        "Accept"@,
        "Accept-Language"@,
        "Content-Type"@,
        "Content-Language"@,
        "Authorization"@,
        "X-Requested-With"@,
        "X-Request-ID"@,
    ]
}

/// The response headers every configuration exposes.
pub open spec fn default_exposed_headers() -> Seq<Seq<char>> {
    seq!["X-Request-ID"@, "X-RateLimit-Limit"@, "X-RateLimit-Remaining"@, "X-RateLimit-Reset"@]
}

/// The local origins the development configuration adds to the defaults.
pub open spec fn development_extra_origins() -> Seq<Seq<char>> {
    seq![
        "http://localhost:3000"@,
        "http://localhost:3001"@,
        "http://localhost:3002"@,
        "http://localhost:3003"@,
        "http://localhost:3004"@,
        "http://127.0.0.1:3000"@,
        "http://127.0.0.1:3001"@,
        "http://127.0.0.1:3002"@,
    ]
}

/// Appends a string made from `s`.
fn push_text(list: &mut Vec<String>, s: &str)
    ensures
        views(final(list)@) == views(old(list)@).push(s@),
{
    list.push(String::from_str(s));
    assert(views(list@) =~= views(old(list)@).push(s@));
}

/// Everything a configuration shares with the defaults but its origins and environment.
pub open spec fn has_default_lists(c: CorsConfig) -> bool {
    &&& views(c.allowed_origin_patterns@) == default_origin_patterns()
    &&& views(c.allowed_methods@) == default_methods()
    &&& views(c.allowed_headers@) == default_allowed_headers()
    &&& views(c.exposed_headers@) == default_exposed_headers()
    &&& c.allow_credentials
    &&& c.max_age == Some(86400u32)
}

impl Default for CorsConfig {
    fn default() -> (c: Self)
        ensures
            views(c.allowed_origins@) == default_origins(),
            has_default_lists(c),
            c.validate_origins,
            c.environment matches CorsEnvironment::Production { strict_origin_check, require_https }
                && strict_origin_check && require_https,
    {
        let mut allowed_origins: Vec<String> = Vec::new();
        push_text(&mut allowed_origins, "https://mev-shield.aurex.in");
        push_text(&mut allowed_origins, "https://app.mev-shield.aurex.in");
        push_text(&mut allowed_origins, "https://admin.mev-shield.aurex.in");
        let mut allowed_origin_patterns: Vec<String> = Vec::new();
        push_text(&mut allowed_origin_patterns, "https://*.mev-shield.aurex.in");
        let mut allowed_methods: Vec<String> = Vec::new();
        push_text(&mut allowed_methods, "GET");
        push_text(&mut allowed_methods, "POST");
        push_text(&mut allowed_methods, "PUT");
        push_text(&mut allowed_methods, "DELETE");
        push_text(&mut allowed_methods, "OPTIONS");
        let mut allowed_headers: Vec<String> = Vec::new();
        push_text(&mut allowed_headers, "Accept");
        push_text(&mut allowed_headers, "Accept-Language");
        push_text(&mut allowed_headers, "Content-Type");
        push_text(&mut allowed_headers, "Content-Language");
        push_text(&mut allowed_headers, "Authorization");
        push_text(&mut allowed_headers, "X-Requested-With");
        push_text(&mut allowed_headers, "X-Request-ID");
        let mut exposed_headers: Vec<String> = Vec::new();
        push_text(&mut exposed_headers, "X-Request-ID");
        push_text(&mut exposed_headers, "X-RateLimit-Limit");
        push_text(&mut exposed_headers, "X-RateLimit-Remaining");
        push_text(&mut exposed_headers, "X-RateLimit-Reset");
        assert(views(allowed_origins@) =~= default_origins());
        assert(views(allowed_origin_patterns@) =~= default_origin_patterns());
        assert(views(allowed_methods@) =~= default_methods());
        assert(views(allowed_headers@) =~= default_allowed_headers());
        assert(views(exposed_headers@) =~= default_exposed_headers());
        CorsConfig {
            allowed_origins,
            allowed_origin_patterns,
            allowed_methods,
            allowed_headers,
            exposed_headers,
            allow_credentials: true,
            max_age: Some(86400),
            validate_origins: true,
            environment: CorsEnvironment::Production { strict_origin_check: true, require_https: true },
        }
    }
}

impl CorsConfig {
    /// The defaults with the local development origins and ports.
    pub fn development() -> (c: Self)
        ensures
            views(c.allowed_origins@) == default_origins() + development_extra_origins(),
            has_default_lists(c),
            c.validate_origins,
            c.environment matches CorsEnvironment::Development { allow_localhost, localhost_ports } && allow_localhost
                && localhost_ports@ == seq![3000u16, 3001, 3002, 3003, 3004, 8080, 8081],
    {
        let mut config = Self::default();
        let ghost base = views(config.allowed_origins@);
        push_text(&mut config.allowed_origins, "http://localhost:3000");
        push_text(&mut config.allowed_origins, "http://localhost:3001");
        push_text(&mut config.allowed_origins, "http://localhost:3002");
        push_text(&mut config.allowed_origins, "http://localhost:3003");
        push_text(&mut config.allowed_origins, "http://localhost:3004");
        push_text(&mut config.allowed_origins, "http://127.0.0.1:3000");
        push_text(&mut config.allowed_origins, "http://127.0.0.1:3001");
        push_text(&mut config.allowed_origins, "http://127.0.0.1:3002");
        assert(views(config.allowed_origins@) =~= base + development_extra_origins());
        let mut ports: Vec<u16> = Vec::new();
        ports.push(3000);
        ports.push(3001);
        ports.push(3002);
        ports.push(3003);
        ports.push(3004);
        ports.push(8080);
        ports.push(8081);
        assert(ports@ =~= seq![3000u16, 3001, 3002, 3003, 3004, 8080, 8081]);
        config.environment = CorsEnvironment::Development { allow_localhost: true, localhost_ports: ports };
        config
    }

    /// The defaults for tests: any origin, no validation.
    pub fn testing() -> (c: Self)
        ensures
            views(c.allowed_origins@) == default_origins(),
            has_default_lists(c),
            !c.validate_origins,
            c.environment matches CorsEnvironment::Testing { allow_any_origin } && allow_any_origin,
    {
        let mut config = Self::default();
        config.environment = CorsEnvironment::Testing { allow_any_origin: true };
        config.validate_origins = false;
        config
    }

    /// The defaults for production with exactly the given domains as origins, each made
    /// `https://` where it is not already.
    pub fn production(domains: Vec<String>) -> (c: Self)
        ensures
            c.validate_origins,
            c.environment matches CorsEnvironment::Production { strict_origin_check, require_https }
                && strict_origin_check && require_https,
            views(c.allowed_origins@) == origin_list(domains@),
            has_default_lists(c),
    {
        let mut config = Self::default();
        config.allowed_origins = Vec::new();
        let prefix = chars_of("https://");
        proof {
            reveal_strlit("https://");
        }
        let mut i: usize = 0;
        while i < domains.len()
            invariant
                i <= domains@.len(),
                prefix@ == "https://"@,
                config.validate_origins,
                has_default_lists(config),
                views(config.allowed_origins@) == origin_list(domains@.subrange(0, i as int)),
            decreases domains@.len() - i,
        {
            let d = chars_of(domains[i].as_str());
            let origin = if vec_starts_with(&d, &prefix) {
                domains[i].clone()
            } else {
                let mut o = String::from_str("https://");
                o.append(domains[i].as_str());
                o
            };
            assert(origin@ == https_origin(domains@[i as int]@));
            let ghost before = config.allowed_origins@;
            insert_unique(&mut config.allowed_origins, origin);
            proof {
                let ds = domains@.subrange(0, i + 1);
                assert(ds.drop_last() =~= domains@.subrange(0, i as int));
                if views(before).contains(origin@) {
                    let k = choose|k: int| 0 <= k < views(before).len() && views(before)[k] == origin@;
                    assert(before[k]@ == origin@);
                } else {
                    assert forall|k: int| 0 <= k < before.len() implies #[trigger] before[k]@ != origin@ by {
                        assert(views(before)[k] == before[k]@);
                    }
                    assert(views(config.allowed_origins@) =~= views(before).push(origin@));
                }
            }
            i = i + 1;
        }
        assert(domains@.subrange(0, domains@.len() as int) =~= domains@);
        config.environment = CorsEnvironment::Production { strict_origin_check: true, require_https: true };
        config
    }
}

/// The texts of a list of strings.
pub open spec fn views(list: Seq<String>) -> Seq<Seq<char>> {
    Seq::new(list.len(), |i: int| list[i]@)
}

/// `s` added to `l` unless it is there already.
pub open spec fn add_unique(l: Seq<Seq<char>>, s: Seq<char>) -> Seq<Seq<char>> {
    if l.contains(s) {
        l
    } else {
        l.push(s)
    }
}

/// The production origins of the domains, in order, each once.
pub open spec fn origin_list(ds: Seq<String>) -> Seq<Seq<char>>
    decreases ds.len(),
{
    if ds.len() == 0 {
        Seq::empty()
    } else {
        add_unique(origin_list(ds.drop_last()), https_origin(ds.last()@))
    }
}

/// A domain as an `https://` origin: kept where it already starts so, else prefixed.
pub open spec fn https_origin(d: Seq<char>) -> Seq<char> {
    if starts_with(d, "https://"@) {
        d
    } else {
        "https://"@ + d
    }
}


/// CORS checks over one configuration.
#[derive(Debug, Clone)]
pub struct CorsMiddleware {
    pub config: CorsConfig,
}

/// `s` is one of the strings of `list`.
pub open spec fn text_in(list: Seq<String>, s: Seq<char>) -> bool {
    exists|k: int| 0 <= k < list.len() && #[trigger] list[k]@ == s
}

/// The host of `origin` as `url` parses it.
pub open spec fn origin_host(origin: Seq<char>) -> Option<Seq<char>> {
    match url_parse(origin) {
        Some(p) => p.1,
        None => None,
    }
}

/// `origin` matches `pattern`: a pattern without `*` matches itself only; one that starts
/// with `https://*.` matches every origin whose host is the domain after that prefix or a
/// subdomain of it (the host ends with a dot and the domain); any other pattern with `*`
/// matches nothing.
pub open spec fn pattern_matches(origin: Seq<char>, pattern: Seq<char>) -> bool {
    if pattern.contains('*') {
        starts_with(pattern, "https://*."@) && match origin_host(origin) {
            Some(h) => ends_with(h, pattern.subrange(9, pattern.len() as int)) || h == pattern.subrange(
                10,
                pattern.len() as int,
            ),
            None => false,
        }
    } else {
        origin == pattern
    }
}

/// `origin` is a local origin (host `localhost`, `127.0.0.1` or `::1`) on one of the
/// ports; without an explicit port, `http` means 80 and `https` 443.
pub open spec fn localhost_ok(origin: Seq<char>, ports: Seq<u16>) -> bool {
    match url_parse(origin) {
        None => false,
        Some(p) => match p.1 {
            None => false,
            Some(h) => (h == "localhost"@ || h == "127.0.0.1"@ || h == "::1"@) && match p.2 {
                Some(port) => ports.contains(port),
                None => if p.0 == "http"@ {
                    ports.contains(80u16)
                } else if p.0 == "https"@ {
                    ports.contains(443u16)
                } else {
                    false
                },
            },
        },
    }
}

/// A host that holds, ASCII case ignored, one of the names refused in production.
pub open spec fn suspicious_host(h: Seq<char>) -> bool {
    ||| contains_lower(h, "localhost"@)
    ||| contains_lower(h, "127.0.0.1"@)
    ||| contains_lower(h, "0.0.0.0"@)
    ||| contains_lower(h, "example.com"@)
    ||| contains_lower(h, "test.com"@)
    ||| contains_lower(h, "evil.com"@)
    ||| contains_lower(h, "attacker"@)
    ||| contains_lower(h, "malicious"@)
    ||| contains_lower(h, "phishing"@)
}

/// The production check of an origin that no list admitted: an origin that does not parse
/// passes; one that parses must be `https`, and its host must neither start with a digit
/// nor be suspicious.
pub open spec fn production_origin_ok(origin: Seq<char>) -> bool {
    match url_parse(origin) {
        None => true,
        Some(p) => p.0 == "https"@ && match p.1 {
            None => true,
            Some(h) => !(h.len() > 0 && is_ascii_digit(h[0])) && !suspicious_host(h),
        },
    }
}

/// Whether the configuration admits `origin`: any origin in a testing configuration that
/// allows all; else a listed origin, or one that matches a listed pattern; else, in
/// development, a local origin on an allowed port. Production admits nothing beyond its
/// lists.
pub open spec fn origin_allowed(c: CorsConfig, origin: Seq<char>) -> bool {
    let any = match c.environment {
        CorsEnvironment::Testing { allow_any_origin } => allow_any_origin,
        _ => false,
    };
    if any {
        true
    } else if text_in(c.allowed_origins@, origin) {
        true
    } else if exists|k: int|
        0 <= k < c.allowed_origin_patterns@.len() && pattern_matches(
            origin,
            #[trigger] c.allowed_origin_patterns@[k]@,
        ) {
        true
    } else {
        match c.environment {
            CorsEnvironment::Development { allow_localhost, localhost_ports } => allow_localhost && localhost_ok(
                origin,
                localhost_ports@,
            ),
            CorsEnvironment::Production { .. } => false,
            CorsEnvironment::Testing { .. } => false,
        }
    }
}

/// A header that needs no preflight.
pub open spec fn simple_header(h: Seq<char>) -> bool {
    h == "accept"@ || h == "accept-language"@ || h == "content-language"@ || h == "content-type"@
}

/// Whether `v` holds `c`.
fn has_char(v: &Vec<char>, c: char) -> (r: bool)
    ensures
        r == v@.contains(c),
{
    let mut i: usize = 0;
    while i < v.len()
        invariant
            i <= v@.len(),
            forall|k: int| 0 <= k < i ==> v@[k] != c,
        decreases v@.len() - i,
    {
        if v[i] == c {
            return true;
        }
        i = i + 1;
    }
    false
}

/// Whether `ports` holds `p`.
fn has_port(ports: &[u16], p: u16) -> (r: bool)
    ensures
        r == ports@.contains(p),
{
    let mut i: usize = 0;
    while i < ports.len()
        invariant
            i <= ports@.len(),
            forall|k: int| 0 <= k < i ==> ports@[k] != p,
        decreases ports@.len() - i,
    {
        if ports[i] == p {
            return true;
        }
        i = i + 1;
    }
    false
}

/// Whether the text of `s` is `lit`.
fn text_is(s: &Vec<char>, lit: &str) -> (r: bool)
    ensures
        r == (s@ == lit@),
{
    let l = chars_of(lit);
    vec_eq(s, &l)
}

/// Whether `origin` matches the wildcard `pattern`.
fn match_pattern(origin: &str, pattern: &str) -> (r: bool)
    ensures
        r == pattern_matches(origin@, pattern@),
{
    let p = chars_of(pattern);
    if has_char(&p, '*') {
        let pre = chars_of("https://*.");
        proof {
            reveal_strlit("https://*.");
        }
        if !vec_starts_with(&p, &pre) {
            return false;
        }
        let d = sub_chars(&p, 10, p.len());
        let dotted = sub_chars(&p, 9, p.len());
        match parse_url(origin) {
            Some(u) => match u.host {
                Some(h) => {
                    let hc = chars_of(h.as_str());
                    vec_ends_with(&hc, &dotted) || vec_eq(&hc, &d)
                },
                None => false,
            },
            None => false,
        }
    } else {
        let o = chars_of(origin);
        vec_eq(&o, &p)
    }
}

/// Whether `origin` is a local origin on one of `allowed_ports`.
fn local_origin(origin: &str, allowed_ports: &[u16]) -> (r: bool)
    ensures
        r == localhost_ok(origin@, allowed_ports@),
{
    match parse_url(origin) {
        None => false,
        Some(u) => match u.host {
            None => false,
            Some(h) => {
                let hc = chars_of(h.as_str());
                let local = text_is(&hc, "localhost") || text_is(&hc, "127.0.0.1") || text_is(&hc, "::1");
                if !local {
                    return false;
                }
                match u.port {
                    Some(port) => has_port(allowed_ports, port),
                    None => {
                        let sc = chars_of(u.scheme.as_str());
                        if text_is(&sc, "http") {
                            has_port(allowed_ports, 80)
                        } else if text_is(&sc, "https") {
                            has_port(allowed_ports, 443)
                        } else {
                            false
                        }
                    },
                }
            },
        },
    }
}


/// Whether the ASCII lower-casing of `h` holds one of the suspicious names.
fn is_suspicious_host(h: &Vec<char>) -> (r: bool)
    ensures
        r == suspicious_host(h@),
{
    find_lower(h, &chars_of("localhost")) || find_lower(h, &chars_of("127.0.0.1")) || find_lower(
        h,
        &chars_of("0.0.0.0"),
    ) || find_lower(h, &chars_of("example.com")) || find_lower(h, &chars_of("test.com")) || find_lower(
        h,
        &chars_of("evil.com"),
    ) || find_lower(h, &chars_of("attacker")) || find_lower(h, &chars_of("malicious")) || find_lower(
        h,
        &chars_of("phishing"),
    )
}

/// The production check of an origin (`https`, no numeric or suspicious host). The
/// hosts that `url` gives are ASCII, so ASCII lower-casing is their lower-casing.
fn production_ok(origin: &str) -> (r: bool)
    ensures
        r == production_origin_ok(origin@),
{
    match parse_url(origin) {
        None => true,
        Some(u) => {
            let sc = chars_of(u.scheme.as_str());
            if !text_is(&sc, "https") {
                return false;
            }
            match u.host {
                None => true,
                Some(h) => {
                    let hc = chars_of(h.as_str());
                    if hc.len() > 0 && char_is_ascii_digit(hc[0]) {
                        return false;
                    }
                    !is_suspicious_host(&hc)
                },
            }
        },
    }
}

/// Whether `config` admits `origin`.
fn admits(config: &CorsConfig, origin: &str) -> (r: bool)
    ensures
        r == origin_allowed(*config, origin@),
{
    match &config.environment {
        CorsEnvironment::Testing { allow_any_origin } => {
            if *allow_any_origin {
                return true;
            }
        },
        _ => {},
    }
    let o = chars_of(origin);
    if string_in(&config.allowed_origins, &o) {
        return true;
    }
    let pats = &config.allowed_origin_patterns;
    let mut i: usize = 0;
    while i < pats.len()
        invariant
            i <= pats@.len(),
            pats == &config.allowed_origin_patterns,
            forall|k: int| 0 <= k < i ==> !pattern_matches(origin@, #[trigger] pats@[k]@),
        decreases pats@.len() - i,
    {
        if match_pattern(origin, pats[i].as_str()) {
            return true;
        }
        i = i + 1;
    }
    match &config.environment {
        CorsEnvironment::Development { allow_localhost, localhost_ports } => {
            *allow_localhost && local_origin(origin, localhost_ports.as_slice())
        },
        CorsEnvironment::Production { .. } => false,
        CorsEnvironment::Testing { .. } => false,
    }
}

impl CorsMiddleware {
    pub fn new(config: CorsConfig) -> (m: Self)
        ensures
            m.config == config,
    {
        CorsMiddleware { config }
    }

    /// Whether `origin` matches the wildcard `pattern`.
    pub fn matches_pattern(&self, origin: &str, pattern: &str) -> (r: bool)
        ensures
            r == pattern_matches(origin@, pattern@),
    {
        match_pattern(origin, pattern)
    }

    /// Whether `origin` is a local origin on one of `allowed_ports`.
    pub fn is_localhost_origin(&self, origin: &str, allowed_ports: &[u16]) -> (r: bool)
        ensures
            r == localhost_ok(origin@, allowed_ports@),
    {
        local_origin(origin, allowed_ports)
    }

    /// The production check of an origin: `https`, and a host that neither starts with a
    /// digit nor holds a suspicious name.
    pub fn validate_production_origin(&self, origin: &str) -> (r: bool)
        ensures
            r == production_origin_ok(origin@),
    {
        production_ok(origin)
    }

    /// Whether the configuration admits `origin`.
    pub fn is_origin_allowed(&self, origin: &str) -> (r: bool)
        ensures
            r == origin_allowed(self.config, origin@),
    {
        admits(&self.config, origin)
    }

    /// Whether `header` needs no preflight.
    pub fn is_simple_header(&self, header: &str) -> (r: bool)
        ensures
            r == simple_header(header@),
    {
        let h = chars_of(header);
        text_is(&h, "accept") || text_is(&h, "accept-language") || text_is(&h, "content-language") || text_is(
            &h,
            "content-type",
        )
    }

    /// The value of the request's first `origin` header.
    pub fn extract_origin(&self, headers: &Vec<(String, String)>) -> (r: Option<String>)
        ensures
            match header_value(headers@, "origin"@) {
                Some(v) => r matches Some(o) && o@ == v,
                None => r is None,
            },
    {
        match find_header(headers, "origin") {
            Some(v) => Some(string_from_chars(&v)),
            None => None,
        }
    }
}


/// What the CORS layer does with a request before it reaches the service.
#[derive(Debug, Clone, Copy, PartialEq, Eq, Structural)]
pub enum CorsStep {
    /// Refused with this status.
    Reject(StatusCode),
    /// An `OPTIONS` request: answered by the preflight check.
    Preflight,
    /// Passed on; the response then gets the CORS headers.
    Forward,
}

/// The first decision on a request: with origin validation on, a refused origin is `403`
/// and a missing origin on a method other than `GET` and `HEAD` is `400`; else `OPTIONS`
/// goes to the preflight check and anything else is passed on.
pub open spec fn request_step_of(c: CorsConfig, method: Seq<char>, origin: Option<Seq<char>>) -> CorsStep {
    if c.validate_origins && (match origin {
        Some(o) => !origin_allowed(c, o),
        None => false,
    }) {
        CorsStep::Reject(403)
    } else if c.validate_origins && origin is None && method != "GET"@ && method != "HEAD"@ {
        CorsStep::Reject(400)
    } else if method == "OPTIONS"@ {
        CorsStep::Preflight
    } else {
        CorsStep::Forward
    }
}

/// A header value that reads as text: visible ASCII, space and tab only.
pub open spec fn readable_text(s: Seq<char>) -> bool {
    forall|i: int| 0 <= i < s.len() ==> (32 <= #[trigger] (s[i] as int) <= 126 || s[i] == '\t')
}

/// A character allowed in a method name (an RFC 7230 token character).
pub open spec fn token_char(c: char) -> bool {
    is_ascii_digit(c) || ('a' <= c && c <= 'z') || ('A' <= c && c <= 'Z') || c == '!' || c == '#' || c == '$'
        || c == '%' || c == '&' || c == '\'' || c == '*' || c == '+' || c == '-' || c == '.' || c == '^'
        || c == '_' || c == '`' || c == '|' || c == '~'
}

/// A text that names a method: non-empty, of token characters.
pub open spec fn method_token(s: Seq<char>) -> bool {
    s.len() > 0 && forall|i: int| 0 <= i < s.len() ==> token_char(#[trigger] s[i])
}

/// The pieces of `s` between commas (one more than there are commas).
pub open spec fn comma_pieces(s: Seq<char>) -> Seq<Seq<char>>
    decreases s.len(),
{
    if s.len() == 0 {
        seq![Seq::<char>::empty()]
    } else {
        let p = comma_pieces(s.drop_last());
        if s.last() == ',' {
            p.push(Seq::<char>::empty())
        } else {
            p.update(p.len() - 1, p.last().push(s.last()))
        }
    }
}

/// The texts of a list of character vectors.
pub open spec fn char_views(v: Seq<Vec<char>>) -> Seq<Seq<char>> {
    Seq::new(v.len(), |i: int| v[i]@)
}

/// The ASCII lower-casing of `s` is `t`.
pub open spec fn lower_is(s: Seq<char>, t: Seq<char>) -> bool {
    s.len() == t.len() && forall|j: int| 0 <= j < s.len() ==> ascii_lower(#[trigger] s[j]) == t[j] as int
}

/// A requested header is allowed: its trimmed, lower-cased name is a configured header
/// or a simple one.
pub open spec fn requested_header_ok(c: CorsConfig, piece: Seq<char>) -> bool {
    let t = trim(piece);
    (exists|k: int| 0 <= k < c.allowed_headers@.len() && lower_is(t, #[trigger] c.allowed_headers@[k]@))
        || lower_is(t, "accept"@) || lower_is(t, "accept-language"@) || lower_is(t, "content-language"@)
        || lower_is(t, "content-type"@)
}

/// The preflight check: the requested method must be readable, a method name, and
/// allowed (`400`, `400`, `405`); each comma-separated requested header of a readable
/// `access-control-request-headers` must be allowed (`403`).
pub open spec fn preflight_verdict_of(c: CorsConfig, headers: Seq<(String, String)>) -> Result<(), StatusCode> {
    match header_value(headers, "access-control-request-method"@) {
        None => Err(400),
        Some(m) => if !(readable_text(m) && method_token(m)) {
            Err(400)
        } else if !text_in(c.allowed_methods@, m) {
            Err(405)
        } else {
            match header_value(headers, "access-control-request-headers"@) {
                None => Ok(()),
                Some(hs) => if readable_text(hs) && exists|k: int|
                    0 <= k < comma_pieces(hs).len() && !requested_header_ok(c, #[trigger] comma_pieces(hs)[k]) {
                    Err(403)
                } else {
                    Ok(())
                },
            }
        },
    }
}

pub(crate) fn is_readable_text(s: &Vec<char>) -> (r: bool)
    ensures
        r == readable_text(s@),
{
    let mut i: usize = 0;
    while i < s.len()
        invariant
            i <= s@.len(),
            forall|k: int| 0 <= k < i ==> (32 <= #[trigger] (s@[k] as int) <= 126 || s@[k] == '\t'),
        decreases s@.len() - i,
    {
        let u = char_code(s[i]);
        if !((32 <= u && u <= 126) || s[i] == '\t') {
            return false;
        }
        i = i + 1;
    }
    true
}

fn is_token_char(c: char) -> (r: bool)
    ensures
        r == token_char(c),
{
    char_is_ascii_digit(c) || ('a' <= c && c <= 'z') || ('A' <= c && c <= 'Z') || c == '!' || c == '#' || c
        == '$' || c == '%' || c == '&' || c == '\'' || c == '*' || c == '+' || c == '-' || c == '.' || c == '^'
        || c == '_' || c == '`' || c == '|' || c == '~'
}

fn is_method_token(s: &Vec<char>) -> (r: bool)
    ensures
        r == method_token(s@),
{
    if s.len() == 0 {
        return false;
    }
    let mut i: usize = 0;
    while i < s.len()
        invariant
            i <= s@.len(),
            forall|k: int| 0 <= k < i ==> token_char(#[trigger] s@[k]),
        decreases s@.len() - i,
    {
        if !is_token_char(s[i]) {
            return false;
        }
        i = i + 1;
    }
    true
}

/// The pieces of `s` between commas.
pub(crate) fn split_commas(s: &Vec<char>) -> (r: Vec<Vec<char>>)
    ensures
        char_views(r@) == comma_pieces(s@),
{
    let mut done: Vec<Vec<char>> = Vec::new();
    let mut cur: Vec<char> = Vec::new();
    let mut i: usize = 0;
    assert(s@.subrange(0, 0) =~= Seq::<char>::empty());
    assert(char_views(done@).push(cur@) =~= comma_pieces(s@.subrange(0, 0)));
    while i < s.len()
        invariant
            i <= s@.len(),
            char_views(done@).push(cur@) == comma_pieces(s@.subrange(0, i as int)),
        decreases s@.len() - i,
    {
        let ghost pre = char_views(done@).push(cur@);
        assert(s@.subrange(0, i + 1).drop_last() =~= s@.subrange(0, i as int));
        if s[i] == ',' {
            done.push(cur);
            cur = Vec::new();
            assert(char_views(done@).push(cur@) =~= pre.push(Seq::<char>::empty()));
        } else {
            cur.push(s[i]);
            assert(char_views(done@).push(cur@) =~= pre.update(pre.len() - 1, pre.last().push(s@[i as int])));
        }
        i = i + 1;
    }
    assert(s@.subrange(0, s@.len() as int) =~= s@);
    done.push(cur);
    assert(char_views(done@) =~= comma_pieces(s@));
    done
}

/// Whether the ASCII lower-casing of `s` is `t`.
fn lowered_equals(s: &Vec<char>, t: &Vec<char>) -> (r: bool)
    ensures
        r == lower_is(s@, t@),
{
    if s.len() != t.len() {
        return false;
    }
    let mut j: usize = 0;
    while j < s.len()
        invariant
            s@.len() == t@.len(),
            j <= s@.len(),
            forall|k: int| 0 <= k < j ==> ascii_lower(#[trigger] s@[k]) == t@[k] as int,
        decreases s@.len() - j,
    {
        let a = char_code(s[j]);
        let lo: u32 = if char_is_ascii_upper(s[j]) {
            a + 32
        } else {
            a
        };
        if lo != char_code(t[j]) {
            return false;
        }
        j = j + 1;
    }
    true
}

impl CorsMiddleware {
    /// The first decision on a request with this method and origin.
    pub fn request_step(&self, method: &str, origin: Option<&str>) -> (r: CorsStep)
        ensures
            r == request_step_of(
                self.config,
                method@,
                match origin {
                    Some(o) => Some(o@),
                    None => None,
                },
            ),
    {
        let m = chars_of(method);
        if self.config.validate_origins {
            match origin {
                Some(o) => {
                    if !admits(&self.config, o) {
                        return CorsStep::Reject(403);
                    }
                },
                None => {
                    if !text_is(&m, "GET") && !text_is(&m, "HEAD") {
                        return CorsStep::Reject(400);
                    }
                },
            }
        }
        if text_is(&m, "OPTIONS") {
            CorsStep::Preflight
        } else {
            CorsStep::Forward
        }
    }

    /// Whether a requested header is allowed.
    fn requested_header_allowed(&self, piece: &Vec<char>) -> (r: bool)
        ensures
            r == requested_header_ok(self.config, piece@),
    {
        let t = trim_chars(piece);
        let allowed = &self.config.allowed_headers;
        let mut k: usize = 0;
        while k < allowed.len()
            invariant
                k <= allowed@.len(),
                allowed == &self.config.allowed_headers,
                t@ == trim(piece@),
                forall|m: int| 0 <= m < k ==> !lower_is(t@, #[trigger] allowed@[m]@),
            decreases allowed@.len() - k,
        {
            let a = chars_of(allowed[k].as_str());
            if lowered_equals(&t, &a) {
                return true;
            }
            k = k + 1;
        }
        lowered_equals(&t, &chars_of("accept")) || lowered_equals(&t, &chars_of("accept-language"))
            || lowered_equals(&t, &chars_of("content-language")) || lowered_equals(&t, &chars_of("content-type"))
    }

    /// The preflight check of an `OPTIONS` request's headers.
    pub fn preflight_verdict(&self, headers: &Vec<(String, String)>) -> (r: Result<(), StatusCode>)
        ensures
            r == preflight_verdict_of(self.config, headers@),
    {
        let m = match find_header(headers, "access-control-request-method") {
            None => {
                return Err(400);
            },
            Some(m) => m,
        };
        if !(is_readable_text(&m) && is_method_token(&m)) {
            return Err(400);
        }
        if !string_in(&self.config.allowed_methods, &m) {
            return Err(405);
        }
        let hs = match find_header(headers, "access-control-request-headers") {
            None => {
                return Ok(());
            },
            Some(hs) => hs,
        };
        if !is_readable_text(&hs) {
            return Ok(());
        }
        let pieces = split_commas(&hs);
        let mut k: usize = 0;
        while k < pieces.len()
            invariant
                k <= pieces@.len(),
                char_views(pieces@) == comma_pieces(hs@),
                header_value(headers@, "access-control-request-method"@) == Some(m@),
                readable_text(m@) && method_token(m@),
                text_in(self.config.allowed_methods@, m@),
                header_value(headers@, "access-control-request-headers"@) == Some(hs@),
                readable_text(hs@),
                forall|j: int| 0 <= j < k ==> requested_header_ok(self.config, #[trigger] comma_pieces(hs@)[j]),
            decreases pieces@.len() - k,
        {
            assert(comma_pieces(hs@)[k as int] == pieces@[k as int]@);
            if !self.requested_header_allowed(&pieces[k]) {
                assert(comma_pieces(hs@).len() == pieces@.len());
                assert(!requested_header_ok(self.config, comma_pieces(hs@)[k as int]));
                return Err(403);
            }
            k = k + 1;
        }
        assert(comma_pieces(hs@).len() == pieces@.len());
        Ok(())
    }
}


/// A text that `HeaderValue::from_str` takes: no control character but tab.
pub open spec fn header_value_ok(s: Seq<char>) -> bool {
    forall|i: int| 0 <= i < s.len() ==> !(((#[trigger] s[i]) as int) < 32 && s[i] != '\t') && (s[i] as int) != 127
}

/// The texts joined with `", "`.
pub open spec fn join_texts(l: Seq<Seq<char>>) -> Seq<char>
    decreases l.len(),
{
    if l.len() == 0 {
        Seq::empty()
    } else if l.len() == 1 {
        l[0]
    } else {
        join_texts(l.drop_last()) + ", "@ + l.last()
    }
}

/// Header names and values as texts.
pub open spec fn pair_views(v: Seq<(String, String)>) -> Seq<(Seq<char>, Seq<char>)> {
    Seq::new(v.len(), |i: int| (v[i].0@, v[i].1@))
}

/// One header, or none.
pub open spec fn one_header(on: bool, name: Seq<char>, value: Seq<char>) -> Seq<(Seq<char>, Seq<char>)> {
    if on {
        seq![(name, value)]
    } else {
        Seq::empty()
    }
}

/// `v` where the header takes it, else `fallback`.
pub open spec fn or_fallback(v: Seq<char>, fallback: Seq<char>) -> Seq<char> {
    if header_value_ok(v) {
        v
    } else {
        fallback
    }
}

/// The origin a response names, where it names one: a given origin that is admitted (or
/// when nothing is validated), else nothing.
pub open spec fn echoed_origin(c: CorsConfig, origin: Option<Seq<char>>) -> Seq<(Seq<char>, Seq<char>)> {
    match origin {
        Some(o) => one_header(
            origin_allowed(c, o) || !c.validate_origins,
            "Access-Control-Allow-Origin"@,
            or_fallback(o, "*"@),
        ),
        None => Seq::empty(),
    }
}

/// The headers set on a passed-on request's response, in order: the origin (or `*` for a
/// request without origin when credentials are off), credentials, exposed headers, and
/// `Vary` (added to a readable existing `Vary` that lacks `Origin`, set where there is none).
pub open spec fn response_headers_of(c: CorsConfig, origin: Option<Seq<char>>, vary: Option<Seq<char>>) -> Seq<
    (Seq<char>, Seq<char>),
> {
    let a = match origin {
        Some(_) => echoed_origin(c, origin),
        None => one_header(!c.allow_credentials, "Access-Control-Allow-Origin"@, "*"@),
    };
    let b = one_header(c.allow_credentials, "Access-Control-Allow-Credentials"@, "true"@);
    let e = one_header(
        c.exposed_headers@.len() > 0,
        "Access-Control-Expose-Headers"@,
        or_fallback(join_texts(views(c.exposed_headers@)), Seq::empty()),
    );
    let v = match vary {
        Some(x) => one_header(
            readable_text(x) && !contains_seq(x, "Origin"@),
            "Vary"@,
            or_fallback(x + ", Origin"@, "Origin"@),
        ),
        None => seq![("Vary"@, "Origin"@)],
    };
    a + b + e + v
}

/// The headers of a preflight answer, in order: the origin, methods, headers,
/// credentials, max age and `Vary`.
pub open spec fn preflight_headers_of(c: CorsConfig, origin: Option<Seq<char>>) -> Seq<(Seq<char>, Seq<char>)> {
    echoed_origin(c, origin) + seq![
        (
            "Access-Control-Allow-Methods"@,
            or_fallback(join_texts(views(c.allowed_methods@)), "GET, POST, PUT, DELETE, OPTIONS"@),
        ),
        (
            "Access-Control-Allow-Headers"@,
            or_fallback(join_texts(views(c.allowed_headers@)), "Content-Type, Authorization"@),
        ),
    ] + one_header(c.allow_credentials, "Access-Control-Allow-Credentials"@, "true"@) + match c.max_age {
        Some(m) => seq![("Access-Control-Max-Age"@, decimal_text(m as nat))],
        None => Seq::empty(),
    } + seq![("Vary"@, "Origin, Access-Control-Request-Method, Access-Control-Request-Headers"@)]
}

fn is_header_value_ok(s: &Vec<char>) -> (r: bool)
    ensures
        r == header_value_ok(s@),
{
    let mut i: usize = 0;
    while i < s.len()
        invariant
            i <= s@.len(),
            forall|k: int|
                0 <= k < i ==> !(((#[trigger] s@[k]) as int) < 32 && s@[k] != '\t') && (s@[k] as int) != 127,
        decreases s@.len() - i,
    {
        let u = char_code(s[i]);
        if (u < 32 && s[i] != '\t') || u == 127 {
            return false;
        }
        i = i + 1;
    }
    true
}

/// The strings joined with `", "`.
fn join_strings(list: &Vec<String>) -> (r: Vec<char>)
    ensures
        r@ == join_texts(views(list@)),
{
    let mut out: Vec<char> = Vec::new();
    let sep = chars_of(", ");
    let mut i: usize = 0;
    while i < list.len()
        invariant
            i <= list@.len(),
            sep@ == ", "@,
            out@ == join_texts(views(list@.subrange(0, i as int))),
        decreases list@.len() - i,
    {
        let item = chars_of(list[i].as_str());
        let ghost before = out@;
        if i > 0 {
            let mut j: usize = 0;
            while j < sep.len()
                invariant
                    j <= sep@.len(),
                    out@ == before + sep@.subrange(0, j as int),
                decreases sep@.len() - j,
            {
                out.push(sep[j]);
                j = j + 1;
                assert(out@ =~= before + sep@.subrange(0, j as int));
            }
        }
        let ghost mid = out@;
        let mut j: usize = 0;
        while j < item.len()
            invariant
                j <= item@.len(),
                out@ == mid + item@.subrange(0, j as int),
            decreases item@.len() - j,
        {
            out.push(item[j]);
            j = j + 1;
            assert(out@ =~= mid + item@.subrange(0, j as int));
        }
        proof {
            let l = views(list@.subrange(0, i + 1));
            assert(l.drop_last() =~= views(list@.subrange(0, i as int)));
            assert(l.last() == item@);
            assert(sep@.subrange(0, sep@.len() as int) =~= sep@);
            assert(item@.subrange(0, item@.len() as int) =~= item@);
            if i == 0 {
                assert(out@ =~= item@);
            } else {
                assert(out@ =~= before + ", "@ + item@);
            }
        }
        i = i + 1;
    }
    assert(list@.subrange(0, list@.len() as int) =~= list@);
    out
}

/// The text where the header takes it, else the fallback.
fn value_or(v: Vec<char>, fallback: &str) -> (r: String)
    ensures
        r@ == or_fallback(v@, fallback@),
{
    if is_header_value_ok(&v) {
        string_from_chars(&v)
    } else {
        String::from_str(fallback)
    }
}

/// Appends one header.
fn push_header(v: &mut Vec<(String, String)>, name: &str, value: String)
    ensures
        pair_views(final(v)@) == pair_views(old(v)@).push((name@, value@)),
{
    v.push((String::from_str(name), value));
    assert(pair_views(v@) =~= pair_views(old(v)@).push((name@, value@)));
}

impl CorsMiddleware {
    /// Appends the origin header that a response names, if any.
    fn push_echoed_origin(&self, out: &mut Vec<(String, String)>, origin: Option<&str>)
        requires
            origin is Some,
        ensures
            pair_views(final(out)@) == pair_views(old(out)@) + echoed_origin(
                self.config,
                match origin {
                    Some(o) => Some(o@),
                    None => None,
                },
            ),
    {
        let o = origin.unwrap();
        if admits(&self.config, o) || !self.config.validate_origins {
            let oc = chars_of(o);
            push_header(out, "Access-Control-Allow-Origin", value_or(oc, "*"));
            assert(pair_views(out@) =~= pair_views(old(out)@) + seq![
                ("Access-Control-Allow-Origin"@, or_fallback(o@, "*"@)),
            ]);
        } else {
            assert(pair_views(out@) =~= pair_views(old(out)@) + Seq::<(Seq<char>, Seq<char>)>::empty());
        }
    }

    /// The headers to set on the response of a passed-on request; `vary` is the response's
    /// own `Vary` header, if it has one.
    pub fn response_headers(&self, origin: Option<&str>, vary: Option<&str>) -> (r: Vec<(String, String)>)
        ensures
            pair_views(r@) == response_headers_of(
                self.config,
                match origin {
                    Some(o) => Some(o@),
                    None => None,
                },
                match vary {
                    Some(x) => Some(x@),
                    None => None,
                },
            ),
    {
        let ghost og = match origin {
            Some(o) => Some(o@),
            None => None::<Seq<char>>,
        };
        let mut out: Vec<(String, String)> = Vec::new();
        if origin.is_some() {
            self.push_echoed_origin(&mut out, origin);
        } else if !self.config.allow_credentials {
            push_header(&mut out, "Access-Control-Allow-Origin", String::from_str("*"));
        }
        let ghost a = pair_views(out@);
        assert(a =~= match og {
            Some(_) => echoed_origin(self.config, og),
            None => one_header(!self.config.allow_credentials, "Access-Control-Allow-Origin"@, "*"@),
        });
        if self.config.allow_credentials {
            push_header(&mut out, "Access-Control-Allow-Credentials", String::from_str("true"));
        }
        let ghost b = pair_views(out@);
        assert(b =~= a + one_header(self.config.allow_credentials, "Access-Control-Allow-Credentials"@, "true"@));
        if self.config.exposed_headers.len() > 0 {
            let j = join_strings(&self.config.exposed_headers);
            proof {
                reveal_strlit("");
                assert(""@ =~= Seq::<char>::empty());
            }
            push_header(&mut out, "Access-Control-Expose-Headers", value_or(j, ""));
        }
        let ghost e = pair_views(out@);
        assert(e =~= b + one_header(
            self.config.exposed_headers@.len() > 0,
            "Access-Control-Expose-Headers"@,
            or_fallback(join_texts(views(self.config.exposed_headers@)), Seq::empty()),
        ));
        match vary {
            Some(x) => {
                let xc = chars_of(x);
                if is_readable_text(&xc) && !contains_text(&xc, &chars_of("Origin")) {
                    let mut t = xc.clone();
                    let tail = chars_of(", Origin");
                    let mut j: usize = 0;
                    while j < tail.len()
                        invariant
                            j <= tail@.len(),
                            t@ == xc@ + tail@.subrange(0, j as int),
                        decreases tail@.len() - j,
                    {
                        t.push(tail[j]);
                        j = j + 1;
                        assert(t@ =~= xc@ + tail@.subrange(0, j as int));
                    }
                    assert(tail@.subrange(0, tail@.len() as int) =~= tail@);
                    push_header(&mut out, "Vary", value_or(t, "Origin"));
                }
            },
            None => {
                push_header(&mut out, "Vary", String::from_str("Origin"));
            },
        }
        out
    }
}


impl CorsMiddleware {
    /// The headers of the answer to an admitted preflight request.
    pub fn preflight_headers(&self, origin: Option<&str>) -> (r: Vec<(String, String)>)
        ensures
            pair_views(r@) == preflight_headers_of(
                self.config,
                match origin {
                    Some(o) => Some(o@),
                    None => None,
                },
            ),
    {
        let ghost og = match origin {
            Some(o) => Some(o@),
            None => None::<Seq<char>>,
        };
        let mut out: Vec<(String, String)> = Vec::new();
        if origin.is_some() {
            self.push_echoed_origin(&mut out, origin);
        }
        let ghost a = pair_views(out@);
        assert(a =~= echoed_origin(self.config, og));
        let methods = join_strings(&self.config.allowed_methods);
        push_header(&mut out, "Access-Control-Allow-Methods", value_or(methods, "GET, POST, PUT, DELETE, OPTIONS"));
        let headers = join_strings(&self.config.allowed_headers);
        push_header(&mut out, "Access-Control-Allow-Headers", value_or(headers, "Content-Type, Authorization"));
        let ghost m = pair_views(out@);
        assert(m =~= a + seq![
            (
                "Access-Control-Allow-Methods"@,
                or_fallback(join_texts(views(self.config.allowed_methods@)), "GET, POST, PUT, DELETE, OPTIONS"@),
            ),
            (
                "Access-Control-Allow-Headers"@,
                or_fallback(join_texts(views(self.config.allowed_headers@)), "Content-Type, Authorization"@),
            ),
        ]);
        if self.config.allow_credentials {
            push_header(&mut out, "Access-Control-Allow-Credentials", String::from_str("true"));
        }
        let ghost b = pair_views(out@);
        assert(b =~= m + one_header(self.config.allow_credentials, "Access-Control-Allow-Credentials"@, "true"@));
        match self.config.max_age {
            Some(age) => {
                push_header(&mut out, "Access-Control-Max-Age", decimal_string(age as u64));
            },
            None => {},
        }
        let ghost c = pair_views(out@);
        assert(c =~= b + match self.config.max_age {
            Some(age) => seq![("Access-Control-Max-Age"@, decimal_text(age as nat))],
            None => Seq::empty(),
        });
        push_header(
            &mut out,
            "Vary",
            String::from_str("Origin, Access-Control-Request-Method, Access-Control-Request-Headers"),
        );
        out
    }
}

/// The outcome of checking a request against a CORS configuration.
#[derive(Debug, Clone)]
pub struct CorsValidationResult {
    pub allowed: bool,
    pub origin: Option<String>,
    pub method: String,
    pub headers: Vec<String>,
    pub reason: Option<String>,
}

/// Why a request is refused, if it is: an origin that validation refuses, else a method
/// that the configuration does not allow.
pub open spec fn refusal_reason(c: CorsConfig, origin: Option<Seq<char>>, method: Seq<char>) -> Option<Seq<char>> {
    match origin {
        Some(o) => if c.validate_origins && !origin_allowed(c, o) {
            Some("Origin not allowed: "@ + o)
        } else if !text_in(c.allowed_methods@, method) {
            Some("Method not allowed: "@ + method)
        } else {
            None
        },
        None => if !text_in(c.allowed_methods@, method) {
            Some("Method not allowed: "@ + method)
        } else {
            None
        },
    }
}

/// Checks a request's origin and method against `config` without handling it;
/// `header_names` are the request's header names, carried into the result.
pub fn validate_cors_request(config: &CorsConfig, origin: Option<&str>, method: &str, header_names: Vec<String>) -> (r:
    CorsValidationResult)
    ensures
        r.method@ == method@,
        r.headers == header_names,
        match origin {
            Some(o) => r.origin matches Some(x) && x@ == o@,
            None => r.origin is None,
        },
        match refusal_reason(
            *config,
            match origin {
                Some(o) => Some(o@),
                None => None,
            },
            method@,
        ) {
            Some(why) => !r.allowed && (r.reason matches Some(t) && t@ == why),
            None => r.allowed && r.reason is None,
        },
{
    let origin_copy = match origin {
        Some(o) => Some(String::from_str(o)),
        None => None,
    };
    let mut result = CorsValidationResult {
        allowed: true,
        origin: origin_copy,
        method: String::from_str(method),
        headers: header_names,
        reason: None,
    };
    if config.validate_origins {
        match origin {
            Some(o) => {
                if !admits(config, o) {
                    let mut why = String::from_str("Origin not allowed: ");
                    why.append(o);
                    result.allowed = false;
                    result.reason = Some(why);
                    return result;
                }
            },
            None => {},
        }
    }
    let m = chars_of(method);
    if !string_in(&config.allowed_methods, &m) {
        let mut why = String::from_str("Method not allowed: ");
        why.append(method);
        result.allowed = false;
        result.reason = Some(why);
        return result;
    }
    result
}

} // verus!

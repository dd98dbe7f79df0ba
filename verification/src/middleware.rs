//! Request screening of the HTTP layer: content type and size rules, attack patterns in
//! the URL and headers, user-agent rules, the health-check bypass, the security headers of
//! every response, and the error text of a refused request. Header lists are the request's
//! (name, value) pairs; a value "reads" when it is visible ASCII text.
use vstd::prelude::*;
use crate::cors::{is_readable_text, pair_views, readable_text};
use crate::gateway::{find_header, header_value, parse_usize, usize_text_value, StatusCode};
use crate::text::{chars_of, contains_lower, find_lower, starts_with, vec_starts_with};

verus! {

/// The content types accepted for requests with a body.
pub open spec fn accepted_content_types() -> Seq<Seq<char>> {
    seq!["application/json"@, "application/x-www-form-urlencoded"@, "multipart/form-data"@, "text/plain"@]
}

/// The validation of a request: a `POST`, `PUT` or `PATCH` needs a content type (`400`)
/// that starts with an accepted one (`415`; an unreadable one counts as empty); a readable
/// `content-length` above 10 MiB is refused (`413`).
pub open spec fn request_validation_of(method: Seq<char>, headers: Seq<(String, String)>) -> Result<(), StatusCode> {
    let with_body = method == "POST"@ || method == "PUT"@ || method == "PATCH"@;
    let ct = header_value(headers, "content-type"@);
    if with_body && ct is None {
        Err(400)
    } else if with_body && !(exists|k: int|
        0 <= k < 4 && starts_with(
            if readable_text(ct.unwrap()) {
                ct.unwrap()
            } else {
                Seq::empty()
            },
            #[trigger] accepted_content_types()[k],
        )) {
        Err(415)
    } else {
        size_limit_of(10485760, headers)
    }
}

/// A readable `content-length` that reads as a number above `max` is refused (`413`).
pub open spec fn size_limit_of(max: nat, headers: Seq<(String, String)>) -> Result<(), StatusCode> {
    match header_value(headers, "content-length"@) {
        Some(v) => if readable_text(v) && usize_text_value(v) is Some && usize_text_value(v).unwrap() > max {
            Err(413)
        } else {
            Ok(())
        },
        None => Ok(()),
    }
}

/// The size check of a request against `max` bytes.
fn size_limit(max: usize, headers: &Vec<(String, String)>) -> (r: Result<(), StatusCode>)
    ensures
        r == size_limit_of(max as nat, headers@),
{
    match find_header(headers, "content-length") {
        Some(v) => {
            if !is_readable_text(&v) {
                return Ok(());
            }
            match parse_usize(&v) {
                Some(n) => {
                    if n > max {
                        Err(413)
                    } else {
                        Ok(())
                    }
                },
                None => Ok(()),
            }
        },
        None => Ok(()),
    }
}

/// Validates a request's content type and size.
pub fn validate_request(method: &str, headers: &Vec<(String, String)>) -> (r: Result<(), StatusCode>)
    ensures
        r == request_validation_of(method@, headers@),
{
    let m = chars_of(method);
    let post = chars_of("POST");
    let put = chars_of("PUT");
    let patch = chars_of("PATCH");
    let with_body = crate::text::vec_eq(&m, &post) || crate::text::vec_eq(&m, &put) || crate::text::vec_eq(
        &m,
        &patch,
    );
    if with_body {
        match find_header(headers, "content-type") {
            None => {
                return Err(400);
            },
            Some(ct) => {
                let text = if is_readable_text(&ct) {
                    ct
                } else {
                    Vec::new()
                };
                let ok = vec_starts_with(&text, &chars_of("application/json")) || vec_starts_with(
                    &text,
                    &chars_of("application/x-www-form-urlencoded"),
                ) || vec_starts_with(&text, &chars_of("multipart/form-data")) || vec_starts_with(
                    &text,
                    &chars_of("text/plain"),
                );
                proof {
                    let acc = accepted_content_types();
                    if ok {
                        if starts_with(text@, "application/json"@) {
                            assert(starts_with(text@, acc[0]));
                        } else if starts_with(text@, "application/x-www-form-urlencoded"@) {
                            assert(starts_with(text@, acc[1]));
                        } else if starts_with(text@, "multipart/form-data"@) {
                            assert(starts_with(text@, acc[2]));
                        } else {
                            assert(starts_with(text@, acc[3]));
                        }
                    }
                    assert(text@ == if readable_text(ct@) {
                        ct@
                    } else {
                        Seq::empty()
                    });
                }
                if !ok {
                    return Err(415);
                }
            },
        }
    }
    size_limit(10485760, headers)
}

/// The size check of the request-size layer: a readable `content-length` above 50 MiB is
/// refused (`413`).
pub fn check_request_size(headers: &Vec<(String, String)>) -> (r: Result<(), StatusCode>)
    ensures
        r == size_limit_of(52428800, headers@),
{
    size_limit(52428800, headers)
}

/// The answer of the health-check bypass: a request for `/health` or `/api/v1/health` is
/// answered at once.
pub fn is_health_check(path: &str) -> (r: bool)
    ensures
        r == (path@ == "/health"@ || path@ == "/api/v1/health"@),
{
    let p = chars_of(path);
    crate::text::vec_eq(&p, &chars_of("/health")) || crate::text::vec_eq(&p, &chars_of("/api/v1/health"))
}

/// The headers of a health-check answer.
pub fn health_check_headers() -> (r: Vec<(String, String)>)
    ensures
        pair_views(r@) == seq![("Content-Type"@, "text/plain"@), ("Cache-Control"@, "no-cache"@)],
{
    let mut r: Vec<(String, String)> = Vec::new();
    r.push((String::from_str("Content-Type"), String::from_str("text/plain")));
    r.push((String::from_str("Cache-Control"), String::from_str("no-cache")));
    assert(pair_views(r@) =~= seq![("Content-Type"@, "text/plain"@), ("Cache-Control"@, "no-cache"@)]);
    r
}

/// The patterns of attacks looked for in URLs and header values (lower case).
pub open spec fn attack_patterns() -> Seq<Seq<char>> {
    seq![
        "../"@,
        "..\\"@,
        "..%2f"@,
        "..%5c"@,
        "<script"@,
        "%3cscript"@,
        "javascript:"@,
        "union select"@,
        "drop table"@,
        "insert into"@,
        "exec("@,
        "eval("@,
        "system("@,
        "/etc/passwd"@,
        "/proc/"@,
        "cmd.exe"@,
        "powershell"@,
        "curl "@,
        "wget "@,
        "base64_decode"@,
        "file_get_contents"@,
    ]
}

/// `s`, ASCII case ignored, holds one of `patterns`.
pub open spec fn holds_any(s: Seq<char>, patterns: Seq<Seq<char>>) -> bool {
    exists|k: int| 0 <= k < patterns.len() && contains_lower(s, #[trigger] patterns[k])
}

/// The URL as the screening reads it: the path, then `?` and the query where there is one.
pub open spec fn url_text(path: Seq<char>, query: Seq<char>) -> Seq<char> {
    if query.len() == 0 {
        path
    } else {
        path + "?"@ + query
    }
}

/// The attack screening: a URL or a readable header value that holds an attack pattern
/// (ASCII case ignored; URLs are ASCII) is refused (`400`).
pub open spec fn attack_screening_of(path: Seq<char>, query: Seq<char>, headers: Seq<(String, String)>) -> Result<
    (),
    StatusCode,
> {
    if holds_any(url_text(path, query), attack_patterns()) || exists|i: int|
        0 <= i < headers.len() && readable_text((#[trigger] headers[i]).1@) && holds_any(
            headers[i].1@,
            attack_patterns(),
        ) {
        Err(400)
    } else {
        Ok(())
    }
}

/// Whether `s`, ASCII case ignored, holds one of the patterns.
fn holds_any_of(s: &Vec<char>, patterns: &Vec<Vec<char>>) -> (r: bool)
    ensures
        r == exists|k: int| 0 <= k < patterns@.len() && contains_lower(s@, (#[trigger] patterns@[k])@),
{
    let mut k: usize = 0;
    while k < patterns.len()
        invariant
            k <= patterns@.len(),
            forall|m: int| 0 <= m < k ==> !contains_lower(s@, (#[trigger] patterns@[m])@),
        decreases patterns@.len() - k,
    {
        if find_lower(s, &patterns[k]) {
            return true;
        }
        k = k + 1;
    }
    false
}

/// The attack patterns as character lists.
fn attack_pattern_list() -> (r: Vec<Vec<char>>)
    ensures
        r@.len() == attack_patterns().len(),
        forall|i: int| 0 <= i < r@.len() ==> (#[trigger] r@[i])@ == attack_patterns()[i],
{
    let mut r: Vec<Vec<char>> = Vec::new();
    r.push(chars_of("../"));
    r.push(chars_of("..\\"));
    r.push(chars_of("..%2f"));
    r.push(chars_of("..%5c"));
    r.push(chars_of("<script"));
    r.push(chars_of("%3cscript"));
    r.push(chars_of("javascript:"));
    r.push(chars_of("union select"));
    r.push(chars_of("drop table"));
    r.push(chars_of("insert into"));
    r.push(chars_of("exec("));
    r.push(chars_of("eval("));
    r.push(chars_of("system("));
    r.push(chars_of("/etc/passwd"));
    r.push(chars_of("/proc/"));
    r.push(chars_of("cmd.exe"));
    r.push(chars_of("powershell"));
    r.push(chars_of("curl "));
    r.push(chars_of("wget "));
    r.push(chars_of("base64_decode"));
    r.push(chars_of("file_get_contents"));
    r
}

/// Screens a request's URL and headers for attack patterns.
pub fn screen_for_attacks(path: &str, query: &str, headers: &Vec<(String, String)>) -> (r: Result<(), StatusCode>)
    ensures
        r == attack_screening_of(path@, query@, headers@),
{
    let pats = attack_pattern_list();
    let ghost ap = attack_patterns();
    let mut url = chars_of(path);
    if query.unicode_len() > 0 {
        url.push('?');
        let q = chars_of(query);
        let mut j: usize = 0;
        let ghost base = url@;
        while j < q.len()
            invariant
                j <= q@.len(),
                url@ == base + q@.subrange(0, j as int),
            decreases q@.len() - j,
        {
            url.push(q[j]);
            j = j + 1;
            assert(url@ =~= base + q@.subrange(0, j as int));
        }
        assert(q@.subrange(0, q@.len() as int) =~= q@);
        assert(url@ =~= path@ + "?"@ + query@) by {
            reveal_strlit("?");
        }
    }
    assert(url@ == url_text(path@, query@));
    let url_bad = holds_any_of(&url, &pats);
    assert(url_bad == holds_any(url_text(path@, query@), ap)) by {
        if url_bad {
            let k = choose|k: int| 0 <= k < pats@.len() && contains_lower(url@, (#[trigger] pats@[k])@);
            assert(ap[k] == pats@[k]@);
        }
        if holds_any(url_text(path@, query@), ap) {
            let k = choose|k: int| 0 <= k < ap.len() && contains_lower(url@, #[trigger] ap[k]);
            assert(ap[k] == pats@[k]@);
        }
    }
    if url_bad {
        return Err(400);
    }
    let mut i: usize = 0;
    while i < headers.len()
        invariant
            i <= headers@.len(),
            pats@.len() == ap.len(),
            ap == attack_patterns(),
            forall|k: int| 0 <= k < pats@.len() ==> (#[trigger] pats@[k])@ == ap[k],
            forall|m: int|
                0 <= m < i ==> !(readable_text((#[trigger] headers@[m]).1@) && holds_any(headers@[m].1@, ap)),
        decreases headers@.len() - i,
    {
        let v = chars_of(headers[i].1.as_str());
        if is_readable_text(&v) {
            let bad = holds_any_of(&v, &pats);
            assert(bad == holds_any(v@, ap)) by {
                if bad {
                    let k = choose|k: int| 0 <= k < pats@.len() && contains_lower(v@, (#[trigger] pats@[k])@);
                    assert(ap[k] == pats@[k]@);
                }
                if holds_any(v@, ap) {
                    let k = choose|k: int| 0 <= k < ap.len() && contains_lower(v@, #[trigger] ap[k]);
                    assert(ap[k] == pats@[k]@);
                }
            }
            if bad {
                return Err(400);
            }
        }
        i = i + 1;
    }
    Ok(())
}

/// The user agents refused (lower case).
pub open spec fn blocked_agents() -> Seq<Seq<char>> {
    seq![
        "sqlmap"@,
        "nikto"@,
        "nessus"@,
        "openvas"@,
        "w3af"@,
        "dirbuster"@,
        "nmap"@,
        "masscan"@,
        "gobuster"@,
        "dirb"@,
        "wpscan"@,
        "burpsuite"@,
        "owasp zap"@,
        "python-requests"@,
        "curl/"@,
        "wget/"@,
        "scanner"@,
        "bot"@,
        "crawler"@,
        "spider"@,
    ]
}

/// The user-agent screening: a request without `user-agent` is refused (`400`); a readable
/// one that names a blocked agent (ASCII case ignored) is refused (`403`), as is one
/// shorter than 10 or longer than 500 characters (`400`).
pub open spec fn user_agent_screening_of(headers: Seq<(String, String)>) -> Result<(), StatusCode> {
    match header_value(headers, "user-agent"@) {
        None => Err(400),
        Some(ua) => if !readable_text(ua) {
            Ok(())
        } else if holds_any(ua, blocked_agents()) {
            Err(403)
        } else if ua.len() < 10 || ua.len() > 500 {
            Err(400)
        } else {
            Ok(())
        },
    }
}

/// The blocked agents as character lists.
fn blocked_agent_list() -> (r: Vec<Vec<char>>)
    ensures
        r@.len() == blocked_agents().len(),
        forall|i: int| 0 <= i < r@.len() ==> (#[trigger] r@[i])@ == blocked_agents()[i],
{
    let mut r: Vec<Vec<char>> = Vec::new();
    r.push(chars_of("sqlmap"));
    r.push(chars_of("nikto"));
    r.push(chars_of("nessus"));
    r.push(chars_of("openvas"));
    r.push(chars_of("w3af"));
    r.push(chars_of("dirbuster"));
    r.push(chars_of("nmap"));
    r.push(chars_of("masscan"));
    r.push(chars_of("gobuster"));
    r.push(chars_of("dirb"));
    r.push(chars_of("wpscan"));
    r.push(chars_of("burpsuite"));
    r.push(chars_of("owasp zap"));
    r.push(chars_of("python-requests"));
    r.push(chars_of("curl/"));
    r.push(chars_of("wget/"));
    r.push(chars_of("scanner"));
    r.push(chars_of("bot"));
    r.push(chars_of("crawler"));
    r.push(chars_of("spider"));
    r
}

/// Screens a request's user agent.
pub fn screen_user_agent(headers: &Vec<(String, String)>) -> (r: Result<(), StatusCode>)
    ensures
        r == user_agent_screening_of(headers@),
{
    let ua = match find_header(headers, "user-agent") {
        None => {
            return Err(400);
        },
        Some(ua) => ua,
    };
    if !is_readable_text(&ua) {
        return Ok(());
    }
    let blocked = blocked_agent_list();
    let ghost ba = blocked_agents();
    let bad = holds_any_of(&ua, &blocked);
    assert(bad == holds_any(ua@, ba)) by {
        if bad {
            let k = choose|k: int| 0 <= k < blocked@.len() && contains_lower(ua@, (#[trigger] blocked@[k])@);
            assert(ba[k] == blocked@[k]@);
        }
        if holds_any(ua@, ba) {
            let k = choose|k: int| 0 <= k < ba.len() && contains_lower(ua@, #[trigger] ba[k]);
            assert(ba[k] == blocked@[k]@);
        }
    }
    if bad {
        return Err(403);
    }
    if ua.len() < 10 || ua.len() > 500 {
        return Err(400);
    }
    Ok(())
}

/// The security headers set on every response (after `Server` and `X-Powered-By` are
/// removed).
pub open spec fn security_headers() -> Seq<(Seq<char>, Seq<char>)> {
    seq![
        ("X-Frame-Options"@, "DENY"@),
        ("X-Content-Type-Options"@, "nosniff"@),
        ("X-XSS-Protection"@, "1; mode=block"@),
        ("Referrer-Policy"@, "strict-origin-when-cross-origin"@),
        ("X-Security-Policy"@, "MEV-Shield-v1"@),
        (
            "X-Content-Security-Policy"@,
            "default-src 'self'; script-src 'self' 'unsafe-inline'; style-src 'self' 'unsafe-inline'; img-src 'self' data: https:"@,
        ),
    ]
}

/// The security headers set on every response.
pub fn security_header_list() -> (r: Vec<(String, String)>)
    ensures
        pair_views(r@) == security_headers(),
{
    let mut r: Vec<(String, String)> = Vec::new();
    r.push((String::from_str("X-Frame-Options"), String::from_str("DENY")));
    r.push((String::from_str("X-Content-Type-Options"), String::from_str("nosniff")));
    r.push((String::from_str("X-XSS-Protection"), String::from_str("1; mode=block")));
    r.push((String::from_str("Referrer-Policy"), String::from_str("strict-origin-when-cross-origin")));
    r.push((String::from_str("X-Security-Policy"), String::from_str("MEV-Shield-v1")));
    r.push(
        (
            String::from_str("X-Content-Security-Policy"),
            String::from_str(
                "default-src 'self'; script-src 'self' 'unsafe-inline'; style-src 'self' 'unsafe-inline'; img-src 'self' data: https:",
            ),
        ),
    );
    assert(pair_views(r@) =~= security_headers());
    r
}

/// The text of a refused request's status.
pub fn error_message(status: StatusCode) -> (s: &'static str)
    ensures
        s@ == if status == 400 {
            "Bad Request"@
        } else if status == 401 {
            "Unauthorized"@
        } else if status == 403 {
            "Forbidden"@
        } else if status == 404 {
            "Not Found"@
        } else if status == 405 {
            "Method Not Allowed"@
        } else if status == 413 {
            "Payload Too Large"@
        } else if status == 429 {
            "Too Many Requests"@
        } else if status == 500 {
            "Internal Server Error"@
        } else {
            "Unknown Error"@
        },
{
    match status {
        400 => "Bad Request",
        401 => "Unauthorized",
        403 => "Forbidden",
        404 => "Not Found",
        405 => "Method Not Allowed",
        413 => "Payload Too Large",
        429 => "Too Many Requests",
        500 => "Internal Server Error",
        _ => "Unknown Error",
    }
}

} // verus!

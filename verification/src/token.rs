//! Signed tokens: the claims of access and refresh tokens as they are written into and
//! read back from HS256 JSON Web Tokens (`jsonwebtoken`), and the checks a token has to
//! pass when it is read: its expiry and not-before time (with the decoder's leeway of 60
//! seconds), its issuer and audience and, for a refresh token, its type. Times are
//! seconds since the Unix epoch.
use vstd::prelude::*;
use std::collections::BTreeMap;
use jsonwebtoken::{Algorithm, DecodingKey, EncodingKey, Header, Validation};
use crate::access::{Claims, User, UserRole};
use crate::gateway::decimal_text;
use crate::jwt::{uuid_text, JwtConfig, JwtError, JwtService, RefreshClaims, TokenPair};
use crate::redistribution::{decimal_value, lemma_decimal_none_extends};
use crate::text::{char_code, chars_of, vec_eq};

verus! {

/// A claim's value as read from a token: a text, a number (its JSON text), or any other
/// JSON value (its JSON text).
#[derive(Debug, Clone)]
pub enum ClaimValue {
    Text(String),
    Number(String),
    Other(String),
}

/// A claim's value as written into a token.
#[derive(Debug, Clone)]
pub enum ClaimInput {
    Text(String),
    Int(i64),
}

/// The abstract value of a claim.
pub enum ClaimView {
    Text(Seq<char>),
    Number(Seq<char>),
    Other(Seq<char>),
}

/// The abstract value of a claim read from a token.
pub open spec fn value_view(v: ClaimValue) -> ClaimView {
    match v {
        ClaimValue::Text(s) => ClaimView::Text(s@),
        ClaimValue::Number(s) => ClaimView::Number(s@),
        ClaimValue::Other(s) => ClaimView::Other(s@),
    }
}

/// The decimal text of an integer, with a leading `-` when it is negative.
pub open spec fn int_text(n: int) -> Seq<char> {
    if n < 0 {
        seq!['-'] + decimal_text((-n) as nat)
    } else {
        decimal_text(n as nat)
    }
}

/// The abstract value of a claim written into a token: an integer is the JSON number
/// with its decimal text.
pub open spec fn input_view(v: ClaimInput) -> ClaimView {
    match v {
        ClaimInput::Text(s) => ClaimView::Text(s@),
        ClaimInput::Int(n) => ClaimView::Number(int_text(n as int)),
    }
}

/// Claims read from a token, by name.
pub open spec fn value_views(v: Seq<(String, ClaimValue)>) -> Seq<(Seq<char>, ClaimView)> {
    Seq::new(v.len(), |i: int| (v[i].0@, value_view(v[i].1)))
}

/// Claims written into a token, by name.
pub open spec fn input_views(v: Seq<(String, ClaimInput)>) -> Seq<(Seq<char>, ClaimView)> {
    Seq::new(v.len(), |i: int| (v[i].0@, input_view(v[i].1)))
}

/// No claim name occurs twice.
pub open spec fn names_distinct(d: Seq<(Seq<char>, ClaimView)>) -> bool {
    forall|i: int, j: int| 0 <= i < j < d.len() ==> #[trigger] d[i].0 != #[trigger] d[j].0
}

/// The position of the first claim named `k`.
pub open spec fn claim_index(d: Seq<(Seq<char>, ClaimView)>, k: Seq<char>) -> Option<int>
    decreases d.len(),
{
    if d.len() == 0 {
        None
    } else {
        match claim_index(d.drop_last(), k) {
            Some(i) => Some(i),
            None => if d.last().0 == k {
                Some(d.len() - 1)
            } else {
                None
            },
        }
    }
}

/// The value of the first claim named `k`.
pub open spec fn lookup(d: Seq<(Seq<char>, ClaimView)>, k: Seq<char>) -> Option<ClaimView> {
    match claim_index(d, k) {
        Some(i) => Some(d[i].1),
        None => None,
    }
}

/// What `jsonwebtoken::encode` makes of the claims (a JSON object of them, under an
/// HS256 header) signed with `secret`.
pub uninterp spec fn hs256_token(claims: Seq<(Seq<char>, ClaimView)>, secret: Seq<u8>) -> Seq<char>;

/// What `jsonwebtoken::decode` reads from a token with no claim checked: its claims by
/// name, or the decoder's error text. With `verify` the token's HS256 signature under
/// `secret` is checked; without, the signature is not looked at.
pub uninterp spec fn hs256_decode(token: Seq<char>, secret: Seq<u8>, verify: bool) -> Result<
    Seq<(Seq<char>, ClaimView)>,
    Seq<char>,
>;

/// `jsonwebtoken::encode` with an HS256 header and the key `EncodingKey::from_secret`, of
/// the claims as a JSON object (strings and integers). Stated: the token is the named
/// `hs256_token` of the claims and the secret, and encoding does not fail (an HMAC key
/// takes any secret and a JSON object always serialises). Also stated: decoding the token
/// with its signature checked under the same secret gives the claims back, each name
/// once (HMAC verifies what it signed; `serde_json` reads back the strings and integers
/// it wrote), where no name is written twice.
#[verifier::external_body]
fn jwt_encode_hs256(claims: &Vec<(String, ClaimInput)>, secret: &[u8]) -> (r: Result<String, String>)
    ensures
        match r {
            Ok(t) => t@ == hs256_token(input_views(claims@), secret@) && (names_distinct(input_views(claims@))
                ==> (hs256_decode(t@, secret@, true) matches Ok(d) && names_distinct(d) && forall|k: Seq<char>|
                #[trigger] lookup(d, k) == lookup(input_views(claims@), k))),
            Err(_) => false,
        },
{
    let mut m = serde_json::Map::new();
    for (k, v) in claims {
        let x = match v {
            ClaimInput::Text(s) => serde_json::Value::from(s.as_str()),
            ClaimInput::Int(n) => serde_json::Value::from(*n),
        };
        m.insert(k.clone(), x);
    }
    jsonwebtoken::encode(&Header::new(Algorithm::HS256), &m, &EncodingKey::from_secret(secret)).map_err(|e| e.to_string())
}

/// `jsonwebtoken::decode` into a map of JSON values, with the key
/// `DecodingKey::from_secret`, HS256 and no claim required or checked (and, without
/// `verify`, the signature not checked); each value as its string, or as its JSON text.
/// Stated: the claims, or the error's text, are the named `hs256_decode`, and no name
/// occurs twice (they are the keys of a map).
#[verifier::external_body]
fn jwt_decode_hs256(token: &str, secret: &[u8], verify: bool) -> (r: Result<Vec<(String, ClaimValue)>, String>)
    ensures
        match r {
            Ok(v) => hs256_decode(token@, secret@, verify) == Ok::<_, Seq<char>>(value_views(v@)) && names_distinct(
                value_views(v@),
            ),
            Err(m) => hs256_decode(token@, secret@, verify) == Err::<Seq<(Seq<char>, ClaimView)>, _>(m@),
        },
{
    let mut val = Validation::new(Algorithm::HS256);
    (val.validate_exp, val.validate_aud) = (false, false);
    val.required_spec_claims.clear();
    if !verify { val.insecure_disable_signature_validation(); }
    let key = DecodingKey::from_secret(secret);
    let data = jsonwebtoken::decode::<BTreeMap<String, serde_json::Value>>(token, &key, &val).map_err(|e| e.to_string())?;
    Ok(data.claims.into_iter().map(|(k, x)| (k, match x {
        serde_json::Value::String(s) => ClaimValue::Text(s),
        serde_json::Value::Number(n) => ClaimValue::Number(n.to_string()),
        o => ClaimValue::Other(o.to_string()),
    })).collect())
}

/// The integer a JSON number's text denotes: optional `-`, then decimal digits.
pub open spec fn int_of_text(t: Seq<char>) -> Option<int> {
    if t.len() > 1 && t[0] == '-' {
        match decimal_value(t.drop_first()) {
            Some(v) => Some(-(v as int)),
            None => None,
        }
    } else if t.len() > 0 && t[0] != '-' {
        match decimal_value(t) {
            Some(v) => Some(v as int),
            None => None,
        }
    } else {
        None
    }
}

/// Reading the decimal text of `m` gives `m` back.
proof fn lemma_decimal_text_value(m: nat)
    ensures
        decimal_value(decimal_text(m)) == Some(m),
        decimal_text(m).len() > 0,
        '0' <= decimal_text(m)[0] <= '9',
    decreases m,
{
    let s = decimal_text(m);
    reveal_with_fuel(decimal_value, 2);
    if m >= 10 {
        lemma_decimal_text_value(m / 10);
        assert(s.drop_last() =~= decimal_text(m / 10));
        assert(s[0] == decimal_text(m / 10)[0]);
        let c = s.last();
        assert(c == ((m % 10) + 48) as char);
        assert(c as int - 48 == m % 10);
        assert((m / 10) * 10 + m % 10 == m);
        assert(decimal_value(s.drop_last()) == Some((m / 10) as nat));
    } else {
        assert(s.drop_last() =~= Seq::<char>::empty());
        assert(s.last() as int - 48 == m);
    }
}

/// Reading the text of an integer gives it back.
pub proof fn lemma_int_text_roundtrip(n: int)
    ensures
        int_of_text(int_text(n)) == Some(n),
{
    if n < 0 {
        lemma_decimal_text_value((-n) as nat);
        assert(int_text(n).drop_first() =~= decimal_text((-n) as nat));
    } else {
        lemma_decimal_text_value(n as nat);
    }
}

/// The value of the decimal digits `s[from..]`, where it is at most `u64::MAX`.
fn digits_value(s: &Vec<char>, from: usize) -> (r: Option<u64>)
    requires
        from <= s@.len(),
    ensures
        match decimal_value(s@.subrange(from as int, s@.len() as int)) {
            Some(v) => if v <= u64::MAX {
                r == Some(v as u64)
            } else {
                r is None
            },
            None => r is None,
        },
{
    let ghost t = s@.subrange(from as int, s@.len() as int);
    let mut v: u128 = 0;
    let mut i: usize = from;
    while i < s.len()
        invariant
            from <= i <= s@.len(),
            t == s@.subrange(from as int, s@.len() as int),
            decimal_value(t.subrange(0, i - from)) == Some(v as nat),
            v <= u64::MAX,
        decreases s@.len() - i,
    {
        let c = s[i];
        proof {
            assert(t.subrange(0, i - from + 1).drop_last() =~= t.subrange(0, i - from));
            assert(t[i - from] == c);
        }
        if !('0' <= c && c <= '9') {
            proof {
                lemma_decimal_none_extends(t, i - from + 1);
            }
            return None;
        }
        let d = char_code(c) - 48;
        v = v * 10 + d as u128;
        i = i + 1;
        if v > u64::MAX as u128 {
            proof {
                if decimal_value(t) is Some {
                    lemma_decimal_at_least(t, i - from);
                }
            }
            return None;
        }
    }
    assert(t.subrange(0, i - from) =~= t);
    Some(v as u64)
}

/// The value of a text is at least that of any prefix.
proof fn lemma_decimal_at_least(s: Seq<char>, i: int)
    requires
        0 <= i <= s.len(),
        decimal_value(s) is Some,
    ensures
        decimal_value(s.subrange(0, i)) is Some,
        decimal_value(s.subrange(0, i)).unwrap() <= decimal_value(s).unwrap(),
    decreases s.len() - i,
{
    if i < s.len() {
        lemma_decimal_at_least(s.drop_last(), i);
        assert(s.drop_last().subrange(0, i) =~= s.subrange(0, i));
    } else {
        assert(s.subrange(0, i) =~= s);
    }
}

/// The integer a number's text denotes, where its magnitude is at most `u64::MAX`.
fn number_value(t: &str) -> (r: Option<i128>)
    ensures
        match int_of_text(t@) {
            Some(n) => if -(u64::MAX as int) <= n <= u64::MAX {
                r == Some(n as i128)
            } else {
                r is None
            },
            None => r is None,
        },
{
    let s = chars_of(t);
    if s.len() > 1 && s[0] == '-' {
        assert(s@.subrange(1, s@.len() as int) =~= s@.drop_first());
        match digits_value(&s, 1) {
            Some(v) => Some(-(v as i128)),
            None => None,
        }
    } else if s.len() > 0 && s[0] != '-' {
        assert(s@.subrange(0, s@.len() as int) =~= s@);
        match digits_value(&s, 0) {
            Some(v) => Some(v as i128),
            None => None,
        }
    } else {
        None
    }
}

/// An absent name has no position; the position of a present one holds it.
proof fn lemma_claim_index(d: Seq<(Seq<char>, ClaimView)>, k: Seq<char>)
    ensures
        claim_index(d, k) is None <==> forall|i: int| 0 <= i < d.len() ==> #[trigger] d[i].0 != k,
        claim_index(d, k) matches Some(i) ==> 0 <= i < d.len() && d[i].0 == k,
    decreases d.len(),
{
    if d.len() > 0 {
        lemma_claim_index(d.drop_last(), k);
        if claim_index(d.drop_last(), k) is None && d.last().0 != k {
            assert forall|i: int| 0 <= i < d.len() implies #[trigger] d[i].0 != k by {
                if i < d.len() - 1 {
                    assert(d.drop_last()[i] == d[i]);
                }
            }
        }
        if claim_index(d.drop_last(), k) is Some {
            let i = claim_index(d.drop_last(), k)->0;
            assert(d.drop_last()[i] == d[i]);
        }
    }
}

/// Where names are distinct, the claim named `d[i].0` is `d[i]`.
pub proof fn lemma_lookup_at(d: Seq<(Seq<char>, ClaimView)>, i: int)
    requires
        names_distinct(d),
        0 <= i < d.len(),
    ensures
        lookup(d, d[i].0) == Some(d[i].1),
{
    lemma_claim_index(d, d[i].0);
    let j = claim_index(d, d[i].0)->0;
    if j < i {
        assert(d[j].0 != d[i].0);
    } else if i < j {
        assert(d[i].0 != d[j].0);
    }
}

/// A match after none in a prefix is the first.
proof fn lemma_first_claim(d: Seq<(Seq<char>, ClaimView)>, k: Seq<char>, i: int)
    requires
        0 <= i < d.len(),
        claim_index(d.subrange(0, i), k) is None,
        d[i].0 == k,
    ensures
        claim_index(d, k) == Some(i),
    decreases d.len() - i,
{
    if i == d.len() - 1 {
        assert(d.drop_last() =~= d.subrange(0, i));
    } else {
        assert(d.drop_last().subrange(0, i) =~= d.subrange(0, i));
        lemma_first_claim(d.drop_last(), k, i);
    }
}

/// The position of the first claim named `key`.
fn find_claim(v: &Vec<(String, ClaimValue)>, key: &str) -> (r: Option<usize>)
    ensures
        match r {
            Some(i) => i < v@.len() && claim_index(value_views(v@), key@) == Some(i as int),
            None => claim_index(value_views(v@), key@) is None,
        },
{
    let ghost d = value_views(v@);
    let k = chars_of(key);
    let mut i: usize = 0;
    while i < v.len()
        invariant
            i <= v@.len(),
            d == value_views(v@),
            k@ == key@,
            claim_index(d.subrange(0, i as int), key@) is None,
        decreases v@.len() - i,
    {
        assert(d.subrange(0, i + 1).drop_last() =~= d.subrange(0, i as int));
        let c = chars_of(v[i].0.as_str());
        if vec_eq(&c, &k) {
            proof {
                lemma_first_claim(d, key@, i as int);
            }
            return Some(i);
        }
        i = i + 1;
    }
    assert(d.subrange(0, v@.len() as int) =~= d);
    None
}

/// The claim named `k` where it is a string.
pub open spec fn text_claim(d: Seq<(Seq<char>, ClaimView)>, k: Seq<char>) -> Option<Seq<char>> {
    match lookup(d, k) {
        Some(ClaimView::Text(s)) => Some(s),
        _ => None,
    }
}

/// The claim named `k` where it is an integer within `i64`.
pub open spec fn int_claim(d: Seq<(Seq<char>, ClaimView)>, k: Seq<char>) -> Option<int> {
    match lookup(d, k) {
        Some(ClaimView::Number(t)) => match int_of_text(t) {
            Some(n) => if i64::MIN <= n <= i64::MAX {
                Some(n)
            } else {
                None
            },
            None => None,
        },
        _ => None,
    }
}

/// The claim named `k` where it is a whole number of seconds within `u64`, as the
/// decoder's time checks read it.
pub open spec fn seconds_claim(d: Seq<(Seq<char>, ClaimView)>, k: Seq<char>) -> Option<int> {
    match lookup(d, k) {
        Some(ClaimView::Number(t)) => match int_of_text(t) {
            Some(n) => if 0 <= n <= u64::MAX {
                Some(n)
            } else {
                None
            },
            None => None,
        },
        _ => None,
    }
}

/// The text of the claim named `key`, where it is a string.
fn read_text(v: &Vec<(String, ClaimValue)>, key: &str) -> (r: Option<String>)
    ensures
        match text_claim(value_views(v@), key@) {
            Some(s) => r matches Some(x) && x@ == s,
            None => r is None,
        },
{
    match find_claim(v, key) {
        Some(i) => match &v[i].1 {
            ClaimValue::Text(s) => Some(String::from_str(s.as_str())),
            _ => None,
        },
        None => None,
    }
}

/// The claim named `key` where it is a number, with its magnitude at most `u64::MAX`.
fn read_number(v: &Vec<(String, ClaimValue)>, key: &str) -> (r: Option<i128>)
    ensures
        match lookup(value_views(v@), key@) {
            Some(ClaimView::Number(t)) => match int_of_text(t) {
                Some(n) => if -(u64::MAX as int) <= n <= u64::MAX {
                    r == Some(n as i128)
                } else {
                    r is None
                },
                None => r is None,
            },
            _ => r is None,
        },
{
    match find_claim(v, key) {
        Some(i) => match &v[i].1 {
            ClaimValue::Number(t) => number_value(t.as_str()),
            _ => None,
        },
        None => None,
    }
}

/// The claim named `key` where it is an integer within `i64`.
fn read_int(v: &Vec<(String, ClaimValue)>, key: &str) -> (r: Option<i64>)
    ensures
        match int_claim(value_views(v@), key@) {
            Some(n) => r == Some(n as i64),
            None => r is None,
        },
{
    match read_number(v, key) {
        Some(n) => if i64::MIN as i128 <= n && n <= i64::MAX as i128 {
            Some(n as i64)
        } else {
            None
        },
        None => None,
    }
}

/// The claim named `key` where it is a whole number of seconds within `u64`.
fn read_seconds(v: &Vec<(String, ClaimValue)>, key: &str) -> (r: Option<u64>)
    ensures
        match seconds_claim(value_views(v@), key@) {
            Some(n) => r == Some(n as u64),
            None => r is None,
        },
{
    match read_number(v, key) {
        Some(n) => if 0 <= n && n <= u64::MAX as i128 {
            Some(n as u64)
        } else {
            None
        },
        None => None,
    }
}

/// The name a role is written with.
pub open spec fn role_name(r: UserRole) -> Seq<char> {
    match r {
        UserRole::Admin => "Admin"@,
        UserRole::User => "User"@,
        UserRole::Validator => "Validator"@,
        UserRole::ReadOnly => "ReadOnly"@,
    }
}

/// The role a name denotes.
pub open spec fn role_named(s: Seq<char>) -> Option<UserRole> {
    if s == "Admin"@ {
        Some(UserRole::Admin)
    } else if s == "User"@ {
        Some(UserRole::User)
    } else if s == "Validator"@ {
        Some(UserRole::Validator)
    } else if s == "ReadOnly"@ {
        Some(UserRole::ReadOnly)
    } else {
        None
    }
}

fn role_text(r: UserRole) -> (s: String)
    ensures
        s@ == role_name(r),
{
    match r {
        UserRole::Admin => String::from_str("Admin"),
        UserRole::User => String::from_str("User"),
        UserRole::Validator => String::from_str("Validator"),
        UserRole::ReadOnly => String::from_str("ReadOnly"),
    }
}

fn role_of_text(s: &str) -> (r: Option<UserRole>)
    ensures
        r == role_named(s@),
{
    let c = chars_of(s);
    if vec_eq(&c, &chars_of("Admin")) {
        Some(UserRole::Admin)
    } else if vec_eq(&c, &chars_of("User")) {
        Some(UserRole::User)
    } else if vec_eq(&c, &chars_of("Validator")) {
        Some(UserRole::Validator)
    } else if vec_eq(&c, &chars_of("ReadOnly")) {
        Some(UserRole::ReadOnly)
    } else {
        None
    }
}

/// The text of the decoder's error where the claims lack a name or have a value of the
/// wrong kind for the claims being read.
pub open spec fn claims_shape_error() -> Seq<char> {
    "JSON error: the claims do not have the expected names and types"@
}

/// The claims carry every field of an access token's claims, each of its kind.
pub open spec fn access_readable(d: Seq<(Seq<char>, ClaimView)>) -> bool {
    &&& text_claim(d, "sub"@) is Some
    &&& text_claim(d, "email"@) is Some
    &&& text_claim(d, "role"@) is Some
    &&& role_named(text_claim(d, "role"@).unwrap()) is Some
    &&& int_claim(d, "exp"@) is Some
    &&& int_claim(d, "iat"@) is Some
    &&& int_claim(d, "nbf"@) is Some
    &&& text_claim(d, "iss"@) is Some
    &&& text_claim(d, "aud"@) is Some
}

/// `c` holds the access-token fields of the claims.
pub open spec fn access_read(c: Claims, d: Seq<(Seq<char>, ClaimView)>) -> bool {
    &&& c.sub@ == text_claim(d, "sub"@).unwrap()
    &&& c.email@ == text_claim(d, "email"@).unwrap()
    &&& c.role == role_named(text_claim(d, "role"@).unwrap()).unwrap()
    &&& c.exp == int_claim(d, "exp"@).unwrap()
    &&& c.iat == int_claim(d, "iat"@).unwrap()
    &&& c.nbf == int_claim(d, "nbf"@).unwrap()
    &&& c.iss@ == text_claim(d, "iss"@).unwrap()
    &&& c.aud@ == text_claim(d, "aud"@).unwrap()
}

/// The claims carry every field of a refresh token's claims, each of its kind.
pub open spec fn refresh_readable(d: Seq<(Seq<char>, ClaimView)>) -> bool {
    &&& text_claim(d, "sub"@) is Some
    &&& text_claim(d, "email"@) is Some
    &&& int_claim(d, "exp"@) is Some
    &&& int_claim(d, "iat"@) is Some
    &&& text_claim(d, "iss"@) is Some
    &&& text_claim(d, "aud"@) is Some
    &&& text_claim(d, "token_type"@) is Some
}

/// `c` holds the refresh-token fields of the claims.
pub open spec fn refresh_read(c: RefreshClaims, d: Seq<(Seq<char>, ClaimView)>) -> bool {
    &&& c.sub@ == text_claim(d, "sub"@).unwrap()
    &&& c.email@ == text_claim(d, "email"@).unwrap()
    &&& c.exp == int_claim(d, "exp"@).unwrap()
    &&& c.iat == int_claim(d, "iat"@).unwrap()
    &&& c.iss@ == text_claim(d, "iss"@).unwrap()
    &&& c.aud@ == text_claim(d, "aud"@).unwrap()
    &&& c.token_type@ == text_claim(d, "token_type"@).unwrap()
}

/// Why the time, issuer or audience checks refuse a token.
#[derive(Debug, Clone, Copy, PartialEq, Eq, Structural)]
pub enum TokenFault {
    MissingExpiry,
    Expired,
    NotYetValid,
    WrongIssuer,
    WrongAudience,
}

/// The seconds of leeway the time checks allow.
pub const LEEWAY_SECS: i64 = 60;

/// The first check that the claims fail at `now`, in the decoder's order: an expiry is
/// required; it must not lie more than the leeway before `now`; a not-before time must
/// not lie more than the leeway after `now`; the issuer and the audience, where given as
/// texts, must be the configured ones.
pub open spec fn claim_fault(d: Seq<(Seq<char>, ClaimView)>, cfg: JwtConfig, now: int) -> Option<TokenFault> {
    match seconds_claim(d, "exp"@) {
        None => Some(TokenFault::MissingExpiry),
        Some(exp) => if exp < now - LEEWAY_SECS {
            Some(TokenFault::Expired)
        } else if seconds_claim(d, "nbf"@) is Some && seconds_claim(d, "nbf"@).unwrap() > now + LEEWAY_SECS {
            Some(TokenFault::NotYetValid)
        } else if text_claim(d, "iss"@) is Some && text_claim(d, "iss"@).unwrap() != cfg.issuer@ {
            Some(TokenFault::WrongIssuer)
        } else if text_claim(d, "aud"@) is Some && text_claim(d, "aud"@).unwrap() != cfg.audience@ {
            Some(TokenFault::WrongAudience)
        } else {
            None
        },
    }
}

/// The error an access token's failed check gives.
pub open spec fn access_fault_error(e: JwtError, f: TokenFault) -> bool {
    match f {
        TokenFault::MissingExpiry => e matches JwtError::TokenValidation(m) && m@ == "Missing required claim: exp"@,
        TokenFault::Expired => e == JwtError::TokenExpired,
        TokenFault::NotYetValid => e == JwtError::TokenNotYetValid,
        TokenFault::WrongIssuer => e == JwtError::InvalidIssuer,
        TokenFault::WrongAudience => e == JwtError::InvalidAudience,
    }
}

/// The error a refresh token's failed check gives: a token not yet valid is a plain
/// validation failure.
pub open spec fn refresh_fault_error(e: JwtError, f: TokenFault) -> bool {
    match f {
        TokenFault::NotYetValid => e matches JwtError::TokenValidation(m) && m@ == "ImmatureSignature"@,
        _ => access_fault_error(e, f),
    }
}

/// The claims or error text of a decoding, abstractly.
pub open spec fn decoded_view(dec: Result<Vec<(String, ClaimValue)>, String>) -> Result<
    Seq<(Seq<char>, ClaimView)>,
    Seq<char>,
> {
    match dec {
        Ok(v) => Ok(value_views(v@)),
        Err(m) => Err(m@),
    }
}

/// What reading an access token gives at `now`, from its decoding: the decoder's error;
/// the shape error; the error of the first failed check; or the claims.
pub open spec fn access_result(
    r: Result<Claims, JwtError>,
    decoded: Result<Seq<(Seq<char>, ClaimView)>, Seq<char>>,
    cfg: JwtConfig,
    now: int,
) -> bool {
    match decoded {
        Err(m) => r matches Err(JwtError::TokenValidation(s)) && s@ == m,
        Ok(d) => if !access_readable(d) {
            r matches Err(JwtError::TokenValidation(s)) && s@ == claims_shape_error()
        } else {
            match claim_fault(d, cfg, now) {
                Some(f) => r matches Err(e) && access_fault_error(e, f),
                None => r matches Ok(c) && access_read(c, d),
            }
        },
    }
}

/// What reading a refresh token gives at `now`, from its decoding; a token whose type is
/// not `refresh` is an invalid token.
pub open spec fn refresh_result(
    r: Result<RefreshClaims, JwtError>,
    decoded: Result<Seq<(Seq<char>, ClaimView)>, Seq<char>>,
    cfg: JwtConfig,
    now: int,
) -> bool {
    match decoded {
        Err(m) => r matches Err(JwtError::TokenValidation(s)) && s@ == m,
        Ok(d) => if !refresh_readable(d) {
            r matches Err(JwtError::TokenValidation(s)) && s@ == claims_shape_error()
        } else {
            match claim_fault(d, cfg, now) {
                Some(f) => r matches Err(e) && refresh_fault_error(e, f),
                None => if text_claim(d, "token_type"@).unwrap() != "refresh"@ {
                    r == Err::<RefreshClaims, JwtError>(JwtError::InvalidToken)
                } else {
                    r matches Ok(c) && refresh_read(c, d)
                },
            }
        },
    }
}

/// What reading a token's claims without its signature gives: the decoder's error; the
/// shape error; a missing expiry; otherwise the audience check refuses it, for an
/// audience is present and none is configured for this reading.
pub open spec fn unverified_result(r: Result<Claims, JwtError>, decoded: Result<Seq<(Seq<char>, ClaimView)>, Seq<char>>) -> bool {
    match decoded {
        Err(m) => r matches Err(JwtError::TokenValidation(s)) && s@ == m,
        Ok(d) => if !access_readable(d) {
            r matches Err(JwtError::TokenValidation(s)) && s@ == claims_shape_error()
        } else if seconds_claim(d, "exp"@) is None {
            r matches Err(JwtError::TokenValidation(s)) && s@ == "Missing required claim: exp"@
        } else {
            r matches Err(JwtError::TokenValidation(s)) && s@ == "InvalidAudience"@
        },
    }
}

/// The access-token claims, where every field is there and of its kind.
fn read_access_fields(v: &Vec<(String, ClaimValue)>) -> (r: Option<Claims>)
    ensures
        match r {
            Some(c) => access_readable(value_views(v@)) && access_read(c, value_views(v@)),
            None => !access_readable(value_views(v@)),
        },
{
    let sub = match read_text(v, "sub") { Some(x) => x, None => return None };
    let email = match read_text(v, "email") { Some(x) => x, None => return None };
    let role_t = match read_text(v, "role") { Some(x) => x, None => return None };
    let role = match role_of_text(role_t.as_str()) { Some(x) => x, None => return None };
    let exp = match read_int(v, "exp") { Some(x) => x, None => return None };
    let iat = match read_int(v, "iat") { Some(x) => x, None => return None };
    let nbf = match read_int(v, "nbf") { Some(x) => x, None => return None };
    let iss = match read_text(v, "iss") { Some(x) => x, None => return None };
    let aud = match read_text(v, "aud") { Some(x) => x, None => return None };
    Some(Claims { sub, email, role, exp, iat, nbf, iss, aud })
}

/// The refresh-token claims, where every field is there and of its kind.
fn read_refresh_fields(v: &Vec<(String, ClaimValue)>) -> (r: Option<RefreshClaims>)
    ensures
        match r {
            Some(c) => refresh_readable(value_views(v@)) && refresh_read(c, value_views(v@)),
            None => !refresh_readable(value_views(v@)),
        },
{
    let sub = match read_text(v, "sub") { Some(x) => x, None => return None };
    let email = match read_text(v, "email") { Some(x) => x, None => return None };
    let exp = match read_int(v, "exp") { Some(x) => x, None => return None };
    let iat = match read_int(v, "iat") { Some(x) => x, None => return None };
    let iss = match read_text(v, "iss") { Some(x) => x, None => return None };
    let aud = match read_text(v, "aud") { Some(x) => x, None => return None };
    let token_type = match read_text(v, "token_type") { Some(x) => x, None => return None };
    Some(RefreshClaims { sub, email, exp, iat, iss, aud, token_type })
}

/// Whether two texts are equal.
fn same_text(a: &str, b: &str) -> (r: bool)
    ensures
        r == (a@ == b@),
{
    vec_eq(&chars_of(a), &chars_of(b))
}

/// A text from a message.
fn text_of(s: &str) -> (r: String)
    ensures
        r@ == s@,
{
    String::from_str(s)
}

impl TokenFault {
    /// The error an access token gets for this fault.
    pub fn access_error(self) -> (e: JwtError)
        ensures
            access_fault_error(e, self),
    {
        match self {
            TokenFault::MissingExpiry => JwtError::TokenValidation(text_of("Missing required claim: exp")),
            TokenFault::Expired => JwtError::TokenExpired,
            TokenFault::NotYetValid => JwtError::TokenNotYetValid,
            TokenFault::WrongIssuer => JwtError::InvalidIssuer,
            TokenFault::WrongAudience => JwtError::InvalidAudience,
        }
    }

    /// The error a refresh token gets for this fault.
    pub fn refresh_error(self) -> (e: JwtError)
        ensures
            refresh_fault_error(e, self),
    {
        match self {
            TokenFault::NotYetValid => JwtError::TokenValidation(text_of("ImmatureSignature")),
            _ => self.access_error(),
        }
    }
}

/// The bytes of the configured secret.
pub open spec fn secret_bytes(cfg: JwtConfig) -> Seq<u8> {
    vstd::utf8::encode_utf8(cfg.secret@)
}

/// The claims of an access token, in the order they are written.
pub open spec fn access_claim_views(c: Claims) -> Seq<(Seq<char>, ClaimView)> {
    seq![
        ("sub"@, ClaimView::Text(c.sub@)),
        ("email"@, ClaimView::Text(c.email@)),
        ("role"@, ClaimView::Text(role_name(c.role))),
        ("exp"@, ClaimView::Number(int_text(c.exp as int))),
        ("iat"@, ClaimView::Number(int_text(c.iat as int))),
        ("nbf"@, ClaimView::Number(int_text(c.nbf as int))),
        ("iss"@, ClaimView::Text(c.iss@)),
        ("aud"@, ClaimView::Text(c.aud@)),
    ]
}

/// The claims of a refresh token, in the order they are written.
pub open spec fn refresh_claim_views(c: RefreshClaims) -> Seq<(Seq<char>, ClaimView)> {
    seq![
        ("sub"@, ClaimView::Text(c.sub@)),
        ("email"@, ClaimView::Text(c.email@)),
        ("exp"@, ClaimView::Number(int_text(c.exp as int))),
        ("iat"@, ClaimView::Number(int_text(c.iat as int))),
        ("iss"@, ClaimView::Text(c.iss@)),
        ("aud"@, ClaimView::Text(c.aud@)),
        ("token_type"@, ClaimView::Text(c.token_type@)),
    ]
}

/// The claims of the access token issued to `user` at `now`.
pub open spec fn issued_access_claims(cfg: JwtConfig, user: User, now: int) -> Seq<(Seq<char>, ClaimView)> {
    seq![
        ("sub"@, ClaimView::Text(uuid_text(user.id))),
        ("email"@, ClaimView::Text(user.email@)),
        ("role"@, ClaimView::Text(role_name(user.role))),
        ("exp"@, ClaimView::Number(int_text(now + cfg.access_token_expiry))),
        ("iat"@, ClaimView::Number(int_text(now))),
        ("nbf"@, ClaimView::Number(int_text(now))),
        ("iss"@, ClaimView::Text(cfg.issuer@)),
        ("aud"@, ClaimView::Text(cfg.audience@)),
    ]
}

/// The claims of the refresh token issued to `user` at `now`.
pub open spec fn issued_refresh_claims(cfg: JwtConfig, user: User, now: int) -> Seq<(Seq<char>, ClaimView)> {
    seq![
        ("sub"@, ClaimView::Text(uuid_text(user.id))),
        ("email"@, ClaimView::Text(user.email@)),
        ("exp"@, ClaimView::Number(int_text(now + cfg.refresh_token_expiry))),
        ("iat"@, ClaimView::Number(int_text(now))),
        ("iss"@, ClaimView::Text(cfg.issuer@)),
        ("aud"@, ClaimView::Text(cfg.audience@)),
        ("token_type"@, ClaimView::Text("refresh"@)),
    ]
}

/// The claim names of both kinds of token are distinct.
proof fn lemma_claim_names_distinct(cfg: JwtConfig, user: User, now: int)
    ensures
        names_distinct(issued_access_claims(cfg, user, now)),
        names_distinct(issued_refresh_claims(cfg, user, now)),
{
    reveal_strlit("sub");
    reveal_strlit("email");
    reveal_strlit("role");
    reveal_strlit("exp");
    reveal_strlit("iat");
    reveal_strlit("nbf");
    reveal_strlit("iss");
    reveal_strlit("aud");
    reveal_strlit("token_type");
    let a = issued_access_claims(cfg, user, now);
    assert forall|i: int, j: int| 0 <= i < j < a.len() implies #[trigger] a[i].0 != #[trigger] a[j].0 by {
        assert(a[i].0[0] != a[j].0[0] || a[i].0[1] != a[j].0[1] || a[i].0.len() != a[j].0.len());
    }
    let b = issued_refresh_claims(cfg, user, now);
    assert forall|i: int, j: int| 0 <= i < j < b.len() implies #[trigger] b[i].0 != #[trigger] b[j].0 by {
        assert(b[i].0[0] != b[j].0[0] || b[i].0[1] != b[j].0[1] || b[i].0.len() != b[j].0.len());
    }
}

fn text_input(name: &str, value: &str) -> (r: (String, ClaimInput))
    ensures
        r.0@ == name@,
        input_view(r.1) == ClaimView::Text(value@),
{
    (String::from_str(name), ClaimInput::Text(String::from_str(value)))
}

fn int_input(name: &str, value: i64) -> (r: (String, ClaimInput))
    ensures
        r.0@ == name@,
        input_view(r.1) == ClaimView::Number(int_text(value as int)),
{
    (String::from_str(name), ClaimInput::Int(value))
}

/// The claims of an access token as they are written.
fn access_inputs(c: &Claims) -> (v: Vec<(String, ClaimInput)>)
    ensures
        input_views(v@) == access_claim_views(*c),
{
    let role = role_text(c.role);
    let mut v: Vec<(String, ClaimInput)> = Vec::new();
    v.push(text_input("sub", c.sub.as_str()));
    v.push(text_input("email", c.email.as_str()));
    v.push(text_input("role", role.as_str()));
    v.push(int_input("exp", c.exp));
    v.push(int_input("iat", c.iat));
    v.push(int_input("nbf", c.nbf));
    v.push(text_input("iss", c.iss.as_str()));
    v.push(text_input("aud", c.aud.as_str()));
    assert(input_views(v@) =~= access_claim_views(*c));
    v
}

/// The claims of a refresh token as they are written.
fn refresh_inputs(c: &RefreshClaims) -> (v: Vec<(String, ClaimInput)>)
    ensures
        input_views(v@) == refresh_claim_views(*c),
{
    let mut v: Vec<(String, ClaimInput)> = Vec::new();
    v.push(text_input("sub", c.sub.as_str()));
    v.push(text_input("email", c.email.as_str()));
    v.push(int_input("exp", c.exp));
    v.push(int_input("iat", c.iat));
    v.push(text_input("iss", c.iss.as_str()));
    v.push(text_input("aud", c.aud.as_str()));
    v.push(text_input("token_type", c.token_type.as_str()));
    assert(input_views(v@) =~= refresh_claim_views(*c));
    v
}

/// A token issued with `claims` decodes, signature checked, to claims with the same
/// values by name.
pub open spec fn decodes_to(token: Seq<char>, secret: Seq<u8>, claims: Seq<(Seq<char>, ClaimView)>) -> bool {
    hs256_decode(token, secret, true) matches Ok(d) && names_distinct(d) && forall|k: Seq<char>|
        #[trigger] lookup(d, k) == lookup(claims, k)
}

/// What renewing access for `user` at `now` gives, from the refresh token's decoding: the
/// refresh token's error, an invalid token where it was issued to someone else, or the
/// new access token.
pub open spec fn refresh_access_result(
    r: Result<String, JwtError>,
    decoded: Result<Seq<(Seq<char>, ClaimView)>, Seq<char>>,
    cfg: JwtConfig,
    user: User,
    now: int,
) -> bool {
    match decoded {
        Err(m) => r matches Err(JwtError::TokenValidation(s)) && s@ == m,
        Ok(d) => if !refresh_readable(d) {
            r matches Err(JwtError::TokenValidation(s)) && s@ == claims_shape_error()
        } else {
            match claim_fault(d, cfg, now) {
                Some(f) => r matches Err(e) && refresh_fault_error(e, f),
                None => if text_claim(d, "token_type"@).unwrap() != "refresh"@ || text_claim(d, "sub"@).unwrap()
                    != uuid_text(user.id) {
                    r == Err::<String, JwtError>(JwtError::InvalidToken)
                } else {
                    r matches Ok(t) && t@ == hs256_token(issued_access_claims(cfg, user, now), secret_bytes(cfg))
                        && decodes_to(t@, secret_bytes(cfg), issued_access_claims(cfg, user, now))
                },
            }
        },
    }
}

impl JwtService {
    /// The first check the claims fail at `now`.
    fn fault_of(&self, v: &Vec<(String, ClaimValue)>, now: i64) -> (r: Option<TokenFault>)
        ensures
            r == claim_fault(value_views(v@), self.config, now as int),
    {
        let exp = match read_seconds(v, "exp") {
            Some(e) => e,
            None => return Some(TokenFault::MissingExpiry),
        };
        if (exp as i128) < (now as i128) - (LEEWAY_SECS as i128) {
            return Some(TokenFault::Expired);
        }
        match read_seconds(v, "nbf") {
            Some(nbf) => if (nbf as i128) > (now as i128) + (LEEWAY_SECS as i128) {
                return Some(TokenFault::NotYetValid);
            },
            None => {},
        }
        match read_text(v, "iss") {
            Some(iss) => if !same_text(iss.as_str(), self.config.issuer.as_str()) {
                return Some(TokenFault::WrongIssuer);
            },
            None => {},
        }
        match read_text(v, "aud") {
            Some(aud) => if !same_text(aud.as_str(), self.config.audience.as_str()) {
                return Some(TokenFault::WrongAudience);
            },
            None => {},
        }
        None
    }

    /// The access-token claims of a decoding at `now`, checked.
    pub fn read_access_claims(&self, decoded: Result<Vec<(String, ClaimValue)>, String>, now: i64) -> (r: Result<
        Claims,
        JwtError,
    >)
        ensures
            access_result(r, decoded_view(decoded), self.config, now as int),
    {
        let v = match decoded {
            Ok(v) => v,
            Err(m) => return Err(JwtError::TokenValidation(m)),
        };
        let claims = match read_access_fields(&v) {
            Some(c) => c,
            None => return Err(JwtError::TokenValidation(text_of("JSON error: the claims do not have the expected names and types"))),
        };
        match self.fault_of(&v, now) {
            Some(f) => Err(f.access_error()),
            None => Ok(claims),
        }
    }

    /// The refresh-token claims of a decoding at `now`, checked, of type `refresh`.
    pub fn read_refresh_claims(&self, decoded: Result<Vec<(String, ClaimValue)>, String>, now: i64) -> (r: Result<
        RefreshClaims,
        JwtError,
    >)
        ensures
            refresh_result(r, decoded_view(decoded), self.config, now as int),
    {
        let v = match decoded {
            Ok(v) => v,
            Err(m) => return Err(JwtError::TokenValidation(m)),
        };
        let claims = match read_refresh_fields(&v) {
            Some(c) => c,
            None => return Err(JwtError::TokenValidation(text_of("JSON error: the claims do not have the expected names and types"))),
        };
        match self.fault_of(&v, now) {
            Some(f) => Err(f.refresh_error()),
            None => if same_text(claims.token_type.as_str(), "refresh") {
                Ok(claims)
            } else {
                Err(JwtError::InvalidToken)
            },
        }
    }

    /// The access-token claims of a decoding whose signature was not checked, under the
    /// checks of that reading.
    pub fn read_unverified_claims(&self, decoded: Result<Vec<(String, ClaimValue)>, String>) -> (r: Result<Claims, JwtError>)
        ensures
            unverified_result(r, decoded_view(decoded)),
    {
        let v = match decoded {
            Ok(v) => v,
            Err(m) => return Err(JwtError::TokenValidation(m)),
        };
        match read_access_fields(&v) {
            Some(_) => {},
            None => return Err(JwtError::TokenValidation(text_of("JSON error: the claims do not have the expected names and types"))),
        }
        match read_seconds(&v, "exp") {
            Some(_) => Err(JwtError::TokenValidation(text_of("InvalidAudience"))),
            None => Err(JwtError::TokenValidation(text_of("Missing required claim: exp"))),
        }
    }

    /// Validates an access token at `now`: its signature under the secret, its claims and
    /// their checks.
    pub fn validate_access_token_at(&self, token: &str, now: i64) -> (r: Result<Claims, JwtError>)
        ensures
            access_result(r, hs256_decode(token@, secret_bytes(self.config), true), self.config, now as int),
    {
        let decoded = jwt_decode_hs256(token, self.config.secret.as_str().as_bytes(), true);
        self.read_access_claims(decoded, now)
    }

    /// Validates an access token now.
    pub fn validate_access_token(&self, token: &str) -> (r: Result<Claims, JwtError>)
        ensures
            exists|now: i64| access_result(r, hs256_decode(token@, secret_bytes(self.config), true), self.config, now as int),
    {
        let now = crate::clock::now_millis() / 1000;
        self.validate_access_token_at(token, now)
    }

    /// Validates a refresh token at `now`: its signature, its claims, their checks and
    /// its type.
    pub fn validate_refresh_token_at(&self, token: &str, now: i64) -> (r: Result<RefreshClaims, JwtError>)
        ensures
            refresh_result(r, hs256_decode(token@, secret_bytes(self.config), true), self.config, now as int),
    {
        let decoded = jwt_decode_hs256(token, self.config.secret.as_str().as_bytes(), true);
        self.read_refresh_claims(decoded, now)
    }

    /// Reads a token's claims without checking its signature, expiry or not-before time.
    pub fn decode_token_unsafe(&self, token: &str) -> (r: Result<Claims, JwtError>)
        ensures
            unverified_result(r, hs256_decode(token@, secret_bytes(self.config), false)),
            r is Err,
    {
        let decoded = jwt_decode_hs256(token, self.config.secret.as_str().as_bytes(), false);
        self.read_unverified_claims(decoded)
    }

    /// Whether a token has expired at `now`: one whose claims cannot be read counts as
    /// expired.
    pub fn is_token_expired_at(&self, token: &str, now: i64) -> (r: bool)
        ensures
            r,
    {
        match self.decode_token_unsafe(token) {
            Ok(claims) => claims.exp < now,
            Err(_) => true,
        }
    }

    /// The expiry (seconds) of a token, read without checking it.
    pub fn get_token_expiration(&self, token: &str) -> (r: Result<i64, JwtError>)
        ensures
            r matches Err(e) && unverified_result(Err(e), hs256_decode(token@, secret_bytes(self.config), false)),
    {
        match self.decode_token_unsafe(token) {
            Ok(claims) => Ok(claims.exp),
            Err(e) => Err(e),
        }
    }

    /// Signs the access token of `user` issued at `now`.
    fn create_access_token_at(&self, user: &User, now: i64) -> (r: Result<String, JwtError>)
        requires
            i64::MIN <= now + self.config.access_token_expiry <= i64::MAX,
        ensures
            r matches Ok(t) && t@ == hs256_token(issued_access_claims(self.config, *user, now as int), secret_bytes(self.config))
                && decodes_to(t@, secret_bytes(self.config), issued_access_claims(self.config, *user, now as int)),
    {
        let claims = self.access_claims_at(user, now);
        let inputs = access_inputs(&claims);
        proof {
            assert(access_claim_views(claims) =~= issued_access_claims(self.config, *user, now as int));
            lemma_claim_names_distinct(self.config, *user, now as int);
        }
        match jwt_encode_hs256(&inputs, self.config.secret.as_str().as_bytes()) {
            Ok(t) => Ok(t),
            Err(m) => Err(JwtError::TokenCreation(m)),
        }
    }

    /// Signs the refresh token of `user` issued at `now`.
    fn create_refresh_token_at(&self, user: &User, now: i64) -> (r: Result<String, JwtError>)
        requires
            i64::MIN <= now + self.config.refresh_token_expiry <= i64::MAX,
        ensures
            r matches Ok(t) && t@ == hs256_token(issued_refresh_claims(self.config, *user, now as int), secret_bytes(self.config))
                && decodes_to(t@, secret_bytes(self.config), issued_refresh_claims(self.config, *user, now as int)),
    {
        let claims = self.refresh_claims_at(user, now);
        let inputs = refresh_inputs(&claims);
        proof {
            reveal_strlit("refresh");
            assert(refresh_claim_views(claims) =~= issued_refresh_claims(self.config, *user, now as int));
            lemma_claim_names_distinct(self.config, *user, now as int);
        }
        match jwt_encode_hs256(&inputs, self.config.secret.as_str().as_bytes()) {
            Ok(t) => Ok(t),
            Err(m) => Err(JwtError::TokenCreation(m)),
        }
    }

    /// The access and refresh tokens of `user` issued at `now`: the signed claims of each,
    /// as bearer tokens that expire after the access expiry.
    pub fn generate_tokens_at(&self, user: &User, now: i64) -> (r: Result<TokenPair, JwtError>)
        requires
            i64::MIN <= now + self.config.access_token_expiry <= i64::MAX,
            i64::MIN <= now + self.config.refresh_token_expiry <= i64::MAX,
        ensures
            r matches Ok(p) && p.token_type@ == "Bearer"@ && p.expires_in == self.config.access_token_expiry
                && p.access_token@ == hs256_token(issued_access_claims(self.config, *user, now as int), secret_bytes(self.config))
                && p.refresh_token@ == hs256_token(issued_refresh_claims(self.config, *user, now as int), secret_bytes(self.config))
                && decodes_to(p.access_token@, secret_bytes(self.config), issued_access_claims(self.config, *user, now as int))
                && decodes_to(p.refresh_token@, secret_bytes(self.config), issued_refresh_claims(self.config, *user, now as int)),
    {
        let access_token = match self.create_access_token_at(user, now) {
            Ok(t) => t,
            Err(e) => return Err(e),
        };
        let refresh_token = match self.create_refresh_token_at(user, now) {
            Ok(t) => t,
            Err(e) => return Err(e),
        };
        Ok(self.token_pair(access_token, refresh_token))
    }

    /// A new access token for `user` at `now` from a refresh token: the refresh token must
    /// be valid at `now` and issued to `user`.
    pub fn refresh_access_token_at(&self, refresh_token: &str, user: &User, now: i64) -> (r: Result<String, JwtError>)
        requires
            i64::MIN <= now + self.config.access_token_expiry <= i64::MAX,
        ensures
            refresh_access_result(
                r,
                hs256_decode(refresh_token@, secret_bytes(self.config), true),
                self.config,
                *user,
                now as int,
            ),
    {
        let claims = match self.validate_refresh_token_at(refresh_token, now) {
            Ok(c) => c,
            Err(e) => return Err(e),
        };
        match self.check_refresh_owner(&claims, user) {
            Ok(()) => {},
            Err(e) => return Err(e),
        }
        self.create_access_token_at(user, now)
    }
}

/// A role read back from its name is the role.
proof fn lemma_role_name(r: UserRole)
    ensures
        role_named(role_name(r)) == Some(r),
{
    reveal_strlit("Admin");
    reveal_strlit("User");
    reveal_strlit("Validator");
    reveal_strlit("ReadOnly");
    assert("Admin"@.len() == 5 && "User"@.len() == 4 && "Validator"@.len() == 9 && "ReadOnly"@.len() == 8);
    assert("Admin"@ != "User"@ && "Admin"@ != "Validator"@ && "Admin"@ != "ReadOnly"@);
    assert("User"@ != "Validator"@ && "User"@ != "ReadOnly"@ && "Validator"@ != "ReadOnly"@);
}

/// The claims an issued access token reads back as, name by name.
proof fn lemma_issued_access_lookups(cfg: JwtConfig, user: User, now: int)
    ensures
        ({
            let a = issued_access_claims(cfg, user, now);
            &&& lookup(a, "sub"@) == Some(ClaimView::Text(uuid_text(user.id)))
            &&& lookup(a, "email"@) == Some(ClaimView::Text(user.email@))
            &&& lookup(a, "role"@) == Some(ClaimView::Text(role_name(user.role)))
            &&& lookup(a, "exp"@) == Some(ClaimView::Number(int_text(now + cfg.access_token_expiry)))
            &&& lookup(a, "iat"@) == Some(ClaimView::Number(int_text(now)))
            &&& lookup(a, "nbf"@) == Some(ClaimView::Number(int_text(now)))
            &&& lookup(a, "iss"@) == Some(ClaimView::Text(cfg.issuer@))
            &&& lookup(a, "aud"@) == Some(ClaimView::Text(cfg.audience@))
        }),
{
    lemma_claim_names_distinct(cfg, user, now);
    let a = issued_access_claims(cfg, user, now);
    lemma_lookup_at(a, 0);
    lemma_lookup_at(a, 1);
    lemma_lookup_at(a, 2);
    lemma_lookup_at(a, 3);
    lemma_lookup_at(a, 4);
    lemma_lookup_at(a, 5);
    lemma_lookup_at(a, 6);
    lemma_lookup_at(a, 7);
}

/// The claims an issued refresh token reads back as, name by name.
proof fn lemma_issued_refresh_lookups(cfg: JwtConfig, user: User, now: int)
    ensures
        ({
            let a = issued_refresh_claims(cfg, user, now);
            &&& lookup(a, "sub"@) == Some(ClaimView::Text(uuid_text(user.id)))
            &&& lookup(a, "email"@) == Some(ClaimView::Text(user.email@))
            &&& lookup(a, "exp"@) == Some(ClaimView::Number(int_text(now + cfg.refresh_token_expiry)))
            &&& lookup(a, "iat"@) == Some(ClaimView::Number(int_text(now)))
            &&& lookup(a, "nbf"@) is None
            &&& lookup(a, "iss"@) == Some(ClaimView::Text(cfg.issuer@))
            &&& lookup(a, "aud"@) == Some(ClaimView::Text(cfg.audience@))
            &&& lookup(a, "token_type"@) == Some(ClaimView::Text("refresh"@))
        }),
{
    lemma_claim_names_distinct(cfg, user, now);
    let a = issued_refresh_claims(cfg, user, now);
    lemma_lookup_at(a, 0);
    lemma_lookup_at(a, 1);
    lemma_lookup_at(a, 2);
    lemma_lookup_at(a, 3);
    lemma_lookup_at(a, 4);
    lemma_lookup_at(a, 5);
    lemma_lookup_at(a, 6);
    lemma_claim_index(a, "nbf"@);
    reveal_strlit("nbf");
    reveal_strlit("sub");
    reveal_strlit("email");
    reveal_strlit("exp");
    reveal_strlit("iat");
    reveal_strlit("iss");
    reveal_strlit("aud");
    reveal_strlit("token_type");
    assert forall|i: int| 0 <= i < a.len() implies #[trigger] a[i].0 != "nbf"@ by {
        assert(a[i].0[0] != "nbf"@[0] || a[i].0[1] != "nbf"@[1] || a[i].0.len() != "nbf"@.len());
    }
}

/// A login's tokens are accepted: an access token issued to `user` at `now` (a time not
/// before the epoch), read at `later` under the same settings while it has not expired and
/// is already valid (each within the leeway), gives the user's claims.
pub proof fn lemma_issued_access_token_accepted(
    cfg: JwtConfig,
    user: User,
    now: int,
    later: int,
    token: Seq<char>,
    r: Result<Claims, JwtError>,
)
    requires
        0 <= now <= i64::MAX,
        0 <= now + cfg.access_token_expiry <= i64::MAX,
        later - LEEWAY_SECS <= now + cfg.access_token_expiry,
        now <= later + LEEWAY_SECS,
        decodes_to(token, secret_bytes(cfg), issued_access_claims(cfg, user, now)),
        access_result(r, hs256_decode(token, secret_bytes(cfg), true), cfg, later),
    ensures
        r matches Ok(c) && c.sub@ == uuid_text(user.id) && c.email@ == user.email@ && c.role == user.role && c.exp
            == now + cfg.access_token_expiry && c.iat == now && c.nbf == now && c.iss@ == cfg.issuer@ && c.aud@
            == cfg.audience@,
{
    let d = hs256_decode(token, secret_bytes(cfg), true)->Ok_0;
    lemma_issued_access_lookups(cfg, user, now);
    lemma_int_text_roundtrip(now + cfg.access_token_expiry);
    lemma_int_text_roundtrip(now);
    lemma_role_name(user.role);
    assert(lookup(d, "sub"@) == lookup(issued_access_claims(cfg, user, now), "sub"@));
    assert(lookup(d, "email"@) == lookup(issued_access_claims(cfg, user, now), "email"@));
    assert(lookup(d, "role"@) == lookup(issued_access_claims(cfg, user, now), "role"@));
    assert(lookup(d, "exp"@) == lookup(issued_access_claims(cfg, user, now), "exp"@));
    assert(lookup(d, "iat"@) == lookup(issued_access_claims(cfg, user, now), "iat"@));
    assert(lookup(d, "nbf"@) == lookup(issued_access_claims(cfg, user, now), "nbf"@));
    assert(lookup(d, "iss"@) == lookup(issued_access_claims(cfg, user, now), "iss"@));
    assert(lookup(d, "aud"@) == lookup(issued_access_claims(cfg, user, now), "aud"@));
    assert(access_readable(d));
    assert(claim_fault(d, cfg, later) is None);
}

/// A refresh token issued to `user` at `now`, used at `later` under the same settings
/// while it has not expired (within the leeway), renews access: the new token is the
/// access token issued to `user` at `later`.
pub proof fn lemma_issued_refresh_token_renews(
    cfg: JwtConfig,
    user: User,
    now: int,
    later: int,
    token: Seq<char>,
    r: Result<String, JwtError>,
)
    requires
        0 <= now <= i64::MAX,
        0 <= now + cfg.refresh_token_expiry <= i64::MAX,
        later - LEEWAY_SECS <= now + cfg.refresh_token_expiry,
        decodes_to(token, secret_bytes(cfg), issued_refresh_claims(cfg, user, now)),
        refresh_access_result(r, hs256_decode(token, secret_bytes(cfg), true), cfg, user, later),
    ensures
        r matches Ok(t) && t@ == hs256_token(issued_access_claims(cfg, user, later), secret_bytes(cfg)),
{
    let d = hs256_decode(token, secret_bytes(cfg), true)->Ok_0;
    lemma_issued_refresh_lookups(cfg, user, now);
    lemma_int_text_roundtrip(now + cfg.refresh_token_expiry);
    lemma_int_text_roundtrip(now);
    assert(lookup(d, "sub"@) == lookup(issued_refresh_claims(cfg, user, now), "sub"@));
    assert(lookup(d, "email"@) == lookup(issued_refresh_claims(cfg, user, now), "email"@));
    assert(lookup(d, "exp"@) == lookup(issued_refresh_claims(cfg, user, now), "exp"@));
    assert(lookup(d, "iat"@) == lookup(issued_refresh_claims(cfg, user, now), "iat"@));
    assert(lookup(d, "nbf"@) == lookup(issued_refresh_claims(cfg, user, now), "nbf"@));
    assert(lookup(d, "iss"@) == lookup(issued_refresh_claims(cfg, user, now), "iss"@));
    assert(lookup(d, "aud"@) == lookup(issued_refresh_claims(cfg, user, now), "aud"@));
    assert(lookup(d, "token_type"@) == lookup(issued_refresh_claims(cfg, user, now), "token_type"@));
    assert(refresh_readable(d));
    assert(claim_fault(d, cfg, later) is None);
}

} // verus!

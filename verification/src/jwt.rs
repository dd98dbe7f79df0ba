//! Token rules: the claims that access and refresh tokens carry, the checks on refresh
//! claims, bearer-header parsing and the token blacklist; signing and reading tokens is in
//! `token`. Times are in seconds (claims) or milliseconds (blacklist) since the Unix epoch.
use vstd::prelude::*;
use crate::access::{can_access_with_role, spec_can_access_with_role, Claims, User, UserRole};
use crate::cors::{is_readable_text, readable_text};
use crate::gateway::{find_header, header_value};
use crate::clock::now_millis;
use crate::text::{chars_of, starts_with, string_from_chars, sub_chars, trim, trim_chars, vec_eq, vec_starts_with};
use crate::types::hex_char;

verus! {

/// Token errors.
#[derive(Debug, Clone, PartialEq, Eq)]
pub enum JwtError {
    TokenCreation(String),
    TokenValidation(String),
    TokenExpired,
    InvalidToken,
    InvalidIssuer,
    InvalidAudience,
    TokenNotYetValid,
}

/// Token settings; the expiries are in seconds.
#[derive(Debug, Clone)]
pub struct JwtConfig {
    pub secret: String,
    pub issuer: String,
    pub audience: String,
    pub access_token_expiry: i64,
    pub refresh_token_expiry: i64,
}

impl JwtConfig {
    /// The default settings with the given secret: issuer `mev-shield`, audience
    /// `mev-shield-api`, access tokens for an hour and refresh tokens for 30 days.
    pub fn with_secret(secret: String) -> (c: Self)
        ensures
            c.secret == secret,
            c.issuer@ == "mev-shield"@,
            c.audience@ == "mev-shield-api"@,
            c.access_token_expiry == 3600,
            c.refresh_token_expiry == 2592000,
    {
        JwtConfig {
            secret,
            issuer: String::from_str("mev-shield"),
            audience: String::from_str("mev-shield-api"),
            access_token_expiry: 3600,
            refresh_token_expiry: 2592000,
        }
    }
}

/// An access token and a refresh token.
#[derive(Debug, Clone)]
pub struct TokenPair {
    pub access_token: String,
    pub refresh_token: String,
    pub token_type: String,
    pub expires_in: i64,
}

/// The claims of a refresh token.
#[derive(Debug, Clone)]
pub struct RefreshClaims {
    pub sub: String,
    pub email: String,
    pub exp: i64,
    pub iat: i64,
    pub iss: String,
    pub aud: String,
    pub token_type: String,
}

/// The index of the `k`-th hexadecimal digit of a UUID within its hyphenated text.
pub open spec fn uuid_digit_index(i: int) -> int {
    if i < 8 {
        i
    } else if i < 13 {
        i - 1
    } else if i < 18 {
        i - 2
    } else if i < 23 {
        i - 3
    } else {
        i - 4
    }
}

/// The hyphenated lower-case text of a UUID: 32 hexadecimal digits, most significant
/// first, grouped 8-4-4-4-12.
pub open spec fn uuid_text(id: u128) -> Seq<char> {
    Seq::new(
        36,
        |i: int|
            if i == 8 || i == 13 || i == 18 || i == 23 {
                '-'
            } else {
                hex_char(((id as int) / vstd::arithmetic::power::pow(16, (31 - uuid_digit_index(i)) as nat)) % 16)
            },
    )
}

/// `uuid::Uuid::from_u128(id).to_string()`: the hyphenated lower-case text of the UUID.
#[verifier::external_body]
pub(crate) fn uuid_string(id: u128) -> (r: String)
    ensures
        r@ == uuid_text(id),
{
    uuid::Uuid::from_u128(id).to_string()
}

/// `s` with every leading copy of `p` removed.
pub open spec fn strip_prefixes(s: Seq<char>, p: Seq<char>) -> Seq<char>
    decreases s.len(),
{
    if p.len() > 0 && starts_with(s, p) {
        strip_prefixes(s.subrange(p.len() as int, s.len() as int), p)
    } else {
        s
    }
}

/// The token of an `Authorization` header: the header must start with `Bearer `; every
/// leading `Bearer ` is dropped and the rest trimmed, and it must not be empty.
pub open spec fn bearer_token(h: Seq<char>) -> Option<Seq<char>> {
    if !starts_with(h, "Bearer "@) {
        None
    } else if trim(strip_prefixes(h, "Bearer "@)).len() == 0 {
        None
    } else {
        Some(trim(strip_prefixes(h, "Bearer "@)))
    }
}

/// The service's token rules over its settings.
#[derive(Debug, Clone)]
pub struct JwtService {
    pub config: JwtConfig,
}

impl JwtService {
    pub fn new(config: JwtConfig) -> (s: Self)
        ensures
            s.config == config,
    {
        JwtService { config }
    }

    /// The claims of an access token for `user` issued at `now` (seconds): subject the
    /// user's id, the user's email and role, expiring after the access expiry (saturating).
    pub fn access_claims_at(&self, user: &User, now: i64) -> (c: Claims)
        requires
            i64::MIN <= now + self.config.access_token_expiry <= i64::MAX,
        ensures
            c.sub@ == uuid_text(user.id),
            c.email@ == user.email@,
            c.role == user.role,
            c.exp == now + self.config.access_token_expiry,
            c.iat == now,
            c.nbf == now,
            c.iss@ == self.config.issuer@,
            c.aud@ == self.config.audience@,
    {
        Claims {
            sub: uuid_string(user.id),
            email: String::from_str(user.email.as_str()),
            role: user.role,
            exp: now + self.config.access_token_expiry,
            iat: now,
            nbf: now,
            iss: String::from_str(self.config.issuer.as_str()),
            aud: String::from_str(self.config.audience.as_str()),
        }
    }

    /// The claims of a refresh token for `user` issued at `now` (seconds).
    pub fn refresh_claims_at(&self, user: &User, now: i64) -> (c: RefreshClaims)
        requires
            i64::MIN <= now + self.config.refresh_token_expiry <= i64::MAX,
        ensures
            c.sub@ == uuid_text(user.id),
            c.email@ == user.email@,
            c.exp == now + self.config.refresh_token_expiry,
            c.iat == now,
            c.iss@ == self.config.issuer@,
            c.aud@ == self.config.audience@,
            c.token_type@ == "refresh"@,
    {
        RefreshClaims {
            sub: uuid_string(user.id),
            email: String::from_str(user.email.as_str()),
            exp: now + self.config.refresh_token_expiry,
            iat: now,
            iss: String::from_str(self.config.issuer.as_str()),
            aud: String::from_str(self.config.audience.as_str()),
            token_type: String::from_str("refresh"),
        }
    }

    /// The pair of signed tokens as handed to a client: bearer tokens that expire after
    /// the access expiry.
    pub fn token_pair(&self, access_token: String, refresh_token: String) -> (p: TokenPair)
        ensures
            p.access_token == access_token,
            p.refresh_token == refresh_token,
            p.token_type@ == "Bearer"@,
            p.expires_in == self.config.access_token_expiry,
    {
        TokenPair {
            access_token,
            refresh_token,
            token_type: String::from_str("Bearer"),
            expires_in: self.config.access_token_expiry,
        }
    }

    /// A decoded refresh token is accepted only with token type `refresh`.
    pub fn check_refresh_claims(&self, claims: RefreshClaims) -> (r: Result<RefreshClaims, JwtError>)
        ensures
            claims.token_type@ == "refresh"@ ==> r == Ok::<RefreshClaims, JwtError>(claims),
            claims.token_type@ != "refresh"@ ==> r == Err::<RefreshClaims, JwtError>(JwtError::InvalidToken),
    {
        let t = chars_of(claims.token_type.as_str());
        let refresh = chars_of("refresh");
        if vec_eq(&t, &refresh) {
            Ok(claims)
        } else {
            Err(JwtError::InvalidToken)
        }
    }

    /// A refresh token renews access only for the user it was issued to.
    pub fn check_refresh_owner(&self, claims: &RefreshClaims, user: &User) -> (r: Result<(), JwtError>)
        ensures
            claims.sub@ == uuid_text(user.id) ==> r is Ok,
            claims.sub@ != uuid_text(user.id) ==> r == Err::<(), JwtError>(JwtError::InvalidToken),
    {
        let sub = chars_of(claims.sub.as_str());
        let id = uuid_string(user.id);
        let idc = chars_of(id.as_str());
        if vec_eq(&sub, &idc) {
            Ok(())
        } else {
            Err(JwtError::InvalidToken)
        }
    }

    /// The token of an `Authorization` header (see `bearer_token`); `InvalidToken` where
    /// there is none.
    pub fn extract_token_from_header(&self, auth_header: &str) -> (r: Result<String, JwtError>)
        ensures
            match bearer_token(auth_header@) {
                Some(t) => r matches Ok(s) && s@ == t,
                None => r == Err::<String, JwtError>(JwtError::InvalidToken),
            },
    {
        let h = chars_of(auth_header);
        let p = chars_of("Bearer ");
        proof {
            reveal_strlit("Bearer ");
        }
        if !vec_starts_with(&h, &p) {
            return Err(JwtError::InvalidToken);
        }
        let mut rest = h;
        while vec_starts_with(&rest, &p)
            invariant
                p@ == "Bearer "@,
                p@.len() == 7,
                strip_prefixes(rest@, p@) == strip_prefixes(h@, p@),
            decreases rest@.len(),
        {
            rest = sub_chars(&rest, p.len(), rest.len());
        }
        let token = trim_chars(&rest);
        if token.len() == 0 {
            return Err(JwtError::InvalidToken);
        }
        Ok(string_from_chars(&token))
    }

}

/// Revoked tokens with the time (milliseconds) until which each stays revoked; a token
/// occurs at most once.
pub struct TokenBlacklist {
    pub tokens: Vec<(String, i64)>,
}

/// The revoked tokens and their times as texts.
pub open spec fn revoked(v: Seq<(String, i64)>) -> Seq<(Seq<char>, i64)> {
    Seq::new(v.len(), |i: int| (v[i].0@, v[i].1))
}

/// The time until which `token` is revoked, if it is.
pub open spec fn revoked_until(v: Seq<(Seq<char>, i64)>, token: Seq<char>) -> Option<i64>
    decreases v.len(),
{
    if v.len() == 0 {
        None
    } else if v.last().0 == token {
        Some(v.last().1)
    } else {
        revoked_until(v.drop_last(), token)
    }
}

/// No token occurs twice.
pub open spec fn tokens_unique(v: Seq<(Seq<char>, i64)>) -> bool {
    forall|i: int, j: int| 0 <= i < j < v.len() ==> (#[trigger] v[i]).0 != (#[trigger] v[j]).0
}

impl TokenBlacklist {
    pub open spec fn wf(&self) -> bool {
        tokens_unique(revoked(self.tokens@))
    }

    /// An empty blacklist.
    pub fn new() -> (b: Self)
        ensures
            b.wf(),
            b.tokens@.len() == 0,
    {
        TokenBlacklist { tokens: Vec::new() }
    }

    /// Whether `token` is revoked.
    pub fn is_blacklisted(&self, token: &str) -> (r: bool)
        ensures
            r == revoked_until(revoked(self.tokens@), token@) is Some,
    {
        let t = chars_of(token);
        let mut i: usize = self.tokens.len();
        assert(self.tokens@.subrange(0, self.tokens@.len() as int) =~= self.tokens@);
        while i > 0
            invariant
                i <= self.tokens@.len(),
                t@ == token@,
                revoked_until(revoked(self.tokens@), token@) == revoked_until(
                    revoked(self.tokens@.subrange(0, i as int)),
                    token@,
                ),
            decreases i,
        {
            let k = chars_of(self.tokens[i - 1].0.as_str());
            assert(revoked(self.tokens@.subrange(0, i as int)).drop_last() =~= revoked(
                self.tokens@.subrange(0, i - 1),
            ));
            assert(revoked(self.tokens@.subrange(0, i as int)).last().0 == k@);
            if vec_eq(&k, &t) {
                return true;
            }
            i = i - 1;
        }
        false
    }

    /// Revokes `token` until `expires_at` (milliseconds) at the current time; see
    /// `add_token_at`.
    pub fn add_token(&mut self, token: &str, expires_at: i64)
        requires
            old(self).wf(),
        ensures
            final(self).wf(),
            exists|now: i64|
                #[trigger] revoked_after_adding(
                    revoked(old(self).tokens@),
                    revoked(final(self).tokens@),
                    token@,
                    expires_at,
                    now,
                ),
    {
        let now = now_millis();
        self.add_token_at(token, expires_at, now);
        assert(revoked_after_adding(revoked(old(self).tokens@), revoked(self.tokens@), token@, expires_at, now));
    }

    /// Revokes `token` until `expires_at` (replacing an earlier time for it), then drops
    /// every token whose time is not after `now`.
    pub fn add_token_at(&mut self, token: &str, expires_at: i64, now: i64)
        requires
            old(self).wf(),
        ensures
            final(self).wf(),
            revoked_after_adding(revoked(old(self).tokens@), revoked(final(self).tokens@), token@, expires_at, now),
    {
        let t = chars_of(token);
        let mut kept: Vec<(String, i64)> = Vec::new();
        let mut i: usize = 0;
        while i < self.tokens.len()
            invariant
                i <= self.tokens@.len(),
                self.wf(),
                t@ == token@,
                tokens_unique(revoked(kept@)),
                forall|k: int| 0 <= k < kept@.len() ==> (#[trigger] kept@[k]).0@ != token@,
                forall|k: int|
                    0 <= k < kept@.len() ==> exists|j: int|
                        0 <= j < i && (#[trigger] self.tokens@[j]).0@ == (#[trigger] kept@[k]).0@,
                forall|s: Seq<char>| #[trigger]
                    revoked_until(revoked(kept@), s) == if s == token@ {
                        None
                    } else {
                        still_revoked(revoked_until(revoked(self.tokens@.subrange(0, i as int)), s), now)
                    },
            decreases self.tokens@.len() - i,
        {
            let ghost op = revoked(self.tokens@.subrange(0, i as int));
            let ghost op1 = revoked(self.tokens@.subrange(0, i + 1));
            let ghost ki = self.tokens@[i as int].0@;
            let ghost before = kept@;
            assert(op1.drop_last() =~= op);
            assert(op1.last() == (ki, self.tokens@[i as int].1));
            let k = chars_of(self.tokens[i].0.as_str());
            let e = self.tokens[i].1;
            proof {
                if revoked_until(op, ki) is Some {
                    lemma_revoked_some_occurs(op, ki);
                    let j = choose|j: int| 0 <= j < op.len() && op[j].0 == ki;
                    assert(op[j] == revoked(self.tokens@)[j]);
                    assert(revoked(self.tokens@)[j].0 == revoked(self.tokens@)[i as int].0);
                    assert(false);
                }
                assert forall|m: int| 0 <= m < before.len() implies (#[trigger] before[m]).0@ != ki by {
                    let j = choose|j: int| 0 <= j < i && (#[trigger] self.tokens@[j]).0@ == before[m].0@;
                    assert(revoked(self.tokens@)[j].0 != revoked(self.tokens@)[i as int].0);
                }
                assert forall|s: Seq<char>| #[trigger]
                    revoked_until(op1, s) == if s == ki {
                        Some(self.tokens@[i as int].1)
                    } else {
                        revoked_until(op, s)
                    } by {}
            }
            if !vec_eq(&k, &t) && e > now {
                kept.push((String::from_str(self.tokens[i].0.as_str()), e));
                proof {
                    assert(revoked(kept@).drop_last() =~= revoked(before));
                    assert(revoked(kept@).last() == (ki, self.tokens@[i as int].1));
                    assert forall|a: int, b: int|
                        0 <= a < b < revoked(kept@).len() implies (#[trigger] revoked(kept@)[a]).0 != (
                    #[trigger] revoked(kept@)[b]).0 by {
                        if b == before.len() {
                            assert(revoked(kept@)[a].0 == before[a].0@);
                        } else {
                            assert(revoked(kept@)[a] == revoked(before)[a]);
                            assert(revoked(kept@)[b] == revoked(before)[b]);
                        }
                    }
                    assert forall|s: Seq<char>| #[trigger]
                        revoked_until(revoked(kept@), s) == if s == token@ {
                            None
                        } else {
                            still_revoked(revoked_until(op1, s), now)
                        } by {
                        if s != ki {
                            assert(revoked_until(revoked(kept@), s) == revoked_until(revoked(before), s));
                        }
                    }
                    assert forall|m: int|
                        0 <= m < kept@.len() implies exists|j: int|
                        0 <= j < i + 1 && (#[trigger] self.tokens@[j]).0@ == (#[trigger] kept@[m]).0@ by {
                        if m == before.len() {
                            assert(self.tokens@[i as int].0@ == kept@[m].0@);
                        } else {
                            assert(kept@[m] == before[m]);
                        }
                    }
                }
            } else {
                proof {
                    assert forall|m: int|
                        0 <= m < kept@.len() implies exists|j: int|
                        0 <= j < i + 1 && (#[trigger] self.tokens@[j]).0@ == (#[trigger] kept@[m]).0@ by {
                        let j = choose|j: int| 0 <= j < i && (#[trigger] self.tokens@[j]).0@ == kept@[m].0@;
                    }
                    assert forall|s: Seq<char>| #[trigger]
                        revoked_until(revoked(kept@), s) == if s == token@ {
                            None
                        } else {
                            still_revoked(revoked_until(op1, s), now)
                        } by {}
                }
            }
            i = i + 1;
        }
        assert(self.tokens@.subrange(0, self.tokens@.len() as int) =~= self.tokens@);
        let ghost before = kept@;
        if expires_at > now {
            kept.push((String::from_str(token), expires_at));
            proof {
                assert(revoked(kept@).drop_last() =~= revoked(before));
                assert(revoked(kept@).last() == (token@, expires_at));
                assert forall|t: Seq<char>| #[trigger]
                    revoked_until(revoked(kept@), t) == still_revoked(
                        if t == token@ {
                            Some(expires_at)
                        } else {
                            revoked_until(revoked(self.tokens@), t)
                        },
                        now,
                    ) by {
                    if t != token@ {
                        assert(revoked_until(revoked(kept@), t) == revoked_until(revoked(before), t));
                    }
                }
                assert forall|a: int, b: int|
                    0 <= a < b < revoked(kept@).len() implies (#[trigger] revoked(kept@)[a]).0 != (
                #[trigger] revoked(kept@)[b]).0 by {
                    if b == before.len() {
                        assert(revoked(kept@)[a].0 == before[a].0@);
                    } else {
                        assert(revoked(kept@)[a] == revoked(before)[a]);
                        assert(revoked(kept@)[b] == revoked(before)[b]);
                    }
                }
            }
        }
        self.tokens = kept;
    }
}

/// `after` revokes exactly what `before` with `token` revoked until `expires_at` revokes
/// after `now`.
pub open spec fn revoked_after_adding(
    before: Seq<(Seq<char>, i64)>,
    after: Seq<(Seq<char>, i64)>,
    token: Seq<char>,
    expires_at: i64,
    now: i64,
) -> bool {
    forall|t: Seq<char>| #[trigger]
        revoked_until(after, t) == still_revoked(
            if t == token {
                Some(expires_at)
            } else {
                revoked_until(before, t)
            },
            now,
        )
}

/// A revocation time kept only while it is after `now`.
pub open spec fn still_revoked(e: Option<i64>, now: i64) -> Option<i64> {
    match e {
        Some(x) => if x > now {
            Some(x)
        } else {
            None
        },
        None => None,
    }
}

/// A revoked token occurs in the list.
proof fn lemma_revoked_some_occurs(v: Seq<(Seq<char>, i64)>, s: Seq<char>)
    requires
        revoked_until(v, s) is Some,
    ensures
        exists|k: int| 0 <= k < v.len() && v[k].0 == s,
    decreases v.len(),
{
    if v.last().0 != s {
        lemma_revoked_some_occurs(v.drop_last(), s);
        let k = choose|k: int| 0 <= k < v.drop_last().len() && v.drop_last()[k].0 == s;
        assert(v[k] == v.drop_last()[k]);
    } else {
        assert(v[v.len() - 1].0 == s);
    }
}


/// The admin check of a request: no signed-in user is `401`, a user who is not an
/// administrator `403`.
pub fn admin_verdict(role: Option<UserRole>) -> (r: Result<(), u16>)
    ensures
        match role {
            None => r == Err::<(), u16>(401),
            Some(x) => if x == UserRole::Admin {
                r is Ok
            } else {
                r == Err::<(), u16>(403)
            },
        },
{
    match role {
        None => Err(401),
        Some(x) => {
            if x.is_admin() {
                Ok(())
            } else {
                Err(403)
            }
        },
    }
}

/// The role check of a request: no signed-in user is `401`, a user whose role does not
/// grant `required` is `403`.
pub fn role_verdict(role: Option<UserRole>, required: UserRole) -> (r: Result<(), u16>)
    ensures
        match role {
            None => r == Err::<(), u16>(401),
            Some(x) => if spec_can_access_with_role(x, required) {
                r is Ok
            } else {
                r == Err::<(), u16>(403)
            },
        },
{
    match role {
        None => Err(401),
        Some(x) => {
            if can_access_with_role(&x, &required) {
                Ok(())
            } else {
                Err(403)
            }
        },
    }
}

/// The token a request carries: the bearer token of a readable `authorization` header,
/// else the `access_token` cookie's value.
pub open spec fn request_token(headers: Seq<(String, String)>, cookie: Option<Seq<char>>) -> Option<Seq<char>> {
    match header_value(headers, "authorization"@) {
        Some(h) => if readable_text(h) && bearer_token(h) is Some {
            bearer_token(h)
        } else {
            cookie
        },
        None => cookie,
    }
}

/// The token a request carries (see `request_token`); `cookie` is the value of its
/// `access_token` cookie, if any.
pub fn extract_token(service: &JwtService, headers: &Vec<(String, String)>, cookie: Option<String>) -> (r: Option<
    String,
>)
    ensures
        match r {
            Some(t) => request_token(
                headers@,
                match cookie {
                    Some(c) => Some(c@),
                    None => None,
                },
            ) == Some(t@),
            None => request_token(
                headers@,
                match cookie {
                    Some(c) => Some(c@),
                    None => None,
                },
            ) is None,
        },
{
    match find_header(headers, "authorization") {
        Some(h) => {
            if is_readable_text(&h) {
                let text = string_from_chars(&h);
                match service.extract_token_from_header(text.as_str()) {
                    Ok(t) => {
                        return Some(t);
                    },
                    Err(_) => {},
                }
            }
        },
        None => {},
    }
    cookie
}

} // verus!

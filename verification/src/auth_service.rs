//! The account service behind the authentication endpoints: the user store, login with
//! lockout, token refresh checks, password change and password reset. Issuing and
//! checking signed tokens, cookies and HTTP answers are the caller's part. Times are
//! milliseconds since the Unix epoch.
use vstd::prelude::*;
use vstd::string::StringSliceAdditionalSpecFns;
use crate::access::{User, UserRole};
use crate::password::{argon2_check, argon2_phc, first_violation, password_error_text, views_of, PasswordService};
use crate::text::{chars_of, vec_eq};
use crate::jwt::{JwtService, TokenPair};
use crate::token::{decodes_to, hs256_token, issued_access_claims, issued_refresh_claims, secret_bytes};

verus! {

/// Two accounts hold the same values.
pub open spec fn same_user(a: User, b: User) -> bool {
    &&& a.id == b.id
    &&& a.email@ == b.email@
    &&& a.password_hash@ == b.password_hash@
    &&& a.role == b.role
    &&& a.is_active == b.is_active
    &&& a.created_at == b.created_at
    &&& a.last_login == b.last_login
    &&& a.failed_login_attempts == b.failed_login_attempts
    &&& a.locked_until == b.locked_until
}

/// A copy of an account.
pub fn copy_user(u: &User) -> (r: User)
    ensures
        same_user(r, *u),
{
    User {
        id: u.id,
        email: String::from_str(u.email.as_str()),
        password_hash: String::from_str(u.password_hash.as_str()),
        role: u.role,
        is_active: u.is_active,
        created_at: u.created_at,
        last_login: u.last_login,
        failed_login_attempts: u.failed_login_attempts,
        locked_until: u.locked_until,
    }
}

/// The position of the first account with `email`.
pub open spec fn user_index(users: Seq<User>, email: Seq<char>) -> Option<int>
    decreases users.len(),
{
    if users.len() == 0 {
        None
    } else {
        match user_index(users.drop_last(), email) {
            Some(i) => Some(i),
            None => if users.last().email@ == email {
                Some(users.len() - 1)
            } else {
                None
            },
        }
    }
}

/// The position of the first account with identifier `id`.
pub open spec fn user_index_by_id(users: Seq<User>, id: u128) -> Option<int>
    decreases users.len(),
{
    if users.len() == 0 {
        None
    } else {
        match user_index_by_id(users.drop_last(), id) {
            Some(i) => Some(i),
            None => if users.last().id == id {
                Some(users.len() - 1)
            } else {
                None
            },
        }
    }
}

/// No two accounts share an email.
pub open spec fn distinct_emails(users: Seq<User>) -> bool {
    forall|i: int, j: int| 0 <= i < j < users.len() ==> #[trigger] users[i].email@ != #[trigger] users[j].email@
}

/// An email that no account has has no position, and the position of one that an
/// account has holds that email.
proof fn lemma_user_index(users: Seq<User>, email: Seq<char>)
    ensures
        user_index(users, email) is None <==> forall|k: int| 0 <= k < users.len() ==> #[trigger] users[k].email@ != email,
        user_index(users, email) matches Some(i) ==> 0 <= i < users.len() && users[i].email@ == email,
    decreases users.len(),
{
    if users.len() > 0 {
        lemma_user_index(users.drop_last(), email);
        if user_index(users.drop_last(), email) is None && users.last().email@ != email {
            assert forall|k: int| 0 <= k < users.len() implies #[trigger] users[k].email@ != email by {
                if k < users.len() - 1 {
                    assert(users.drop_last()[k] == users[k]);
                }
            }
        }
        if user_index(users.drop_last(), email) is Some {
            let i = user_index(users.drop_last(), email)->0;
            assert(users.drop_last()[i] == users[i]);
        }
    }
}

/// A password reset token: for which account, and until when it is valid.
#[derive(Debug, Clone)]
pub struct ResetToken {
    pub token: String,
    pub user_id: u128,
    pub expires_at: i64,
}

/// The position of the first reset entry for `token`.
pub open spec fn token_index(tokens: Seq<ResetToken>, token: Seq<char>) -> Option<int>
    decreases tokens.len(),
{
    if tokens.len() == 0 {
        None
    } else {
        match token_index(tokens.drop_last(), token) {
            Some(i) => Some(i),
            None => if tokens.last().token@ == token {
                Some(tokens.len() - 1)
            } else {
                None
            },
        }
    }
}

/// No two pending resets share a token.
pub open spec fn distinct_tokens(tokens: Seq<ResetToken>) -> bool {
    forall|i: int, j: int| 0 <= i < j < tokens.len() ==> #[trigger] tokens[i].token@ != #[trigger] tokens[j].token@
}

/// A token that no entry has has no position, and the position of one that an entry
/// has holds that token.
proof fn lemma_token_index(tokens: Seq<ResetToken>, token: Seq<char>)
    ensures
        token_index(tokens, token) is None <==> forall|k: int|
            0 <= k < tokens.len() ==> #[trigger] tokens[k].token@ != token,
        token_index(tokens, token) matches Some(i) ==> 0 <= i < tokens.len() && tokens[i].token@ == token,
    decreases tokens.len(),
{
    if tokens.len() > 0 {
        lemma_token_index(tokens.drop_last(), token);
        if token_index(tokens.drop_last(), token) is None && tokens.last().token@ != token {
            assert forall|k: int| 0 <= k < tokens.len() implies #[trigger] tokens[k].token@ != token by {
                if k < tokens.len() - 1 {
                    assert(tokens.drop_last()[k] == tokens[k]);
                }
            }
        }
        if token_index(tokens.drop_last(), token) is Some {
            let i = token_index(tokens.drop_last(), token)->0;
            assert(tokens.drop_last()[i] == tokens[i]);
        }
    }
}

/// The answer to a login, a password change or a password reset.
#[derive(Debug)]
pub enum AuthOutcome {
    /// The request is refused outright (`401`).
    Unauthorized,
    /// Something failed on the service's side (`500`).
    ServerError,
    /// The request is answered without success, with this reason.
    Refused(String),
    /// The request succeeded; for a login, with the account signed in.
    Success(Option<User>),
}

/// The account a failed login leaves (the count saturates at its maximum).
pub open spec fn after_failed_login(u: User, now: i64) -> User {
    if u.failed_login_attempts < i32::MAX {
        u.failed_login_step(now)
    } else {
        u
    }
}

/// The account a successful login at `now` leaves.
pub open spec fn after_login(u: User, now: i64) -> User {
    User { last_login: Some(now), failed_login_attempts: 0, locked_until: None, ..u }
}

/// The first rule of the service that a password (its text and its length in bytes)
/// breaks, if any.
pub open spec fn password_violation(ps: PasswordService, password: Seq<char>, byte_len: nat) -> Option<
    crate::password::PasswordError,
> {
    first_violation(ps.config, views_of(ps.common_passwords@), password, byte_len)
}

/// `m` is the text of a hashing failure of the password's bytes under some salt.
pub open spec fn hashing_failure_text(password: Seq<u8>, m: Seq<char>) -> bool {
    exists|salt: Seq<char>|
        #[trigger] argon2_phc(password, salt) is Err && m == "Password hashing failed: "@ + argon2_phc(
            password,
            salt,
        )->Err_0
}

/// The user store and the pending password resets.
pub struct AuthServiceState {
    pub password_service: PasswordService,
    pub users: Vec<User>,
    pub password_reset_tokens: Vec<ResetToken>,
}

/// The position of the first account with `email`.
fn find_user(users: &Vec<User>, email: &str) -> (r: Option<usize>)
    ensures
        match r {
            Some(i) => i < users@.len() && users@[i as int].email@ == email@ && user_index(users@, email@) == Some(
                i as int,
            ),
            None => user_index(users@, email@) is None,
        },
{
    let e = chars_of(email);
    let mut i: usize = 0;
    while i < users.len()
        invariant
            i <= users@.len(),
            e@ == email@,
            user_index(users@.subrange(0, i as int), email@) is None,
        decreases users@.len() - i,
    {
        assert(users@.subrange(0, i + 1).drop_last() =~= users@.subrange(0, i as int));
        let c = chars_of(users[i].email.as_str());
        if vec_eq(&c, &e) {
            proof {
                lemma_first_user(users@, email@, i as int);
            }
            return Some(i);
        }
        i = i + 1;
    }
    assert(users@.subrange(0, users@.len() as int) =~= users@);
    None
}

/// A match after none in a prefix is the first.
proof fn lemma_first_user(users: Seq<User>, email: Seq<char>, i: int)
    requires
        0 <= i < users.len(),
        user_index(users.subrange(0, i), email) is None,
        users[i].email@ == email,
    ensures
        user_index(users, email) == Some(i),
    decreases users.len() - i,
{
    if i == users.len() - 1 {
        assert(users.drop_last() =~= users.subrange(0, i));
    } else {
        assert(users.drop_last().subrange(0, i) =~= users.subrange(0, i));
        lemma_first_user(users.drop_last(), email, i);
    }
}

/// The position of the first account with identifier `id`.
fn find_user_by_id(users: &Vec<User>, id: u128) -> (r: Option<usize>)
    ensures
        match r {
            Some(i) => i < users@.len() && users@[i as int].id == id && user_index_by_id(users@, id) == Some(i as int),
            None => user_index_by_id(users@, id) is None,
        },
{
    let mut i: usize = 0;
    while i < users.len()
        invariant
            i <= users@.len(),
            user_index_by_id(users@.subrange(0, i as int), id) is None,
        decreases users@.len() - i,
    {
        assert(users@.subrange(0, i + 1).drop_last() =~= users@.subrange(0, i as int));
        if users[i].id == id {
            proof {
                lemma_first_user_id(users@, id, i as int);
            }
            return Some(i);
        }
        i = i + 1;
    }
    assert(users@.subrange(0, users@.len() as int) =~= users@);
    None
}

/// A match after none in a prefix is the first.
proof fn lemma_first_user_id(users: Seq<User>, id: u128, i: int)
    requires
        0 <= i < users.len(),
        user_index_by_id(users.subrange(0, i), id) is None,
        users[i].id == id,
    ensures
        user_index_by_id(users, id) == Some(i),
    decreases users.len() - i,
{
    if i == users.len() - 1 {
        assert(users.drop_last() =~= users.subrange(0, i));
    } else {
        assert(users.drop_last().subrange(0, i) =~= users.subrange(0, i));
        lemma_first_user_id(users.drop_last(), id, i);
    }
}

/// The position of the first reset entry for `token`.
fn find_token(tokens: &Vec<ResetToken>, token: &str) -> (r: Option<usize>)
    ensures
        match r {
            Some(i) => i < tokens@.len() && tokens@[i as int].token@ == token@ && token_index(tokens@, token@) == Some(
                i as int,
            ),
            None => token_index(tokens@, token@) is None,
        },
{
    let t = chars_of(token);
    let mut i: usize = 0;
    while i < tokens.len()
        invariant
            i <= tokens@.len(),
            t@ == token@,
            token_index(tokens@.subrange(0, i as int), token@) is None,
        decreases tokens@.len() - i,
    {
        assert(tokens@.subrange(0, i + 1).drop_last() =~= tokens@.subrange(0, i as int));
        let c = chars_of(tokens[i].token.as_str());
        if vec_eq(&c, &t) {
            proof {
                lemma_first_token(tokens@, token@, i as int);
            }
            return Some(i);
        }
        i = i + 1;
    }
    assert(tokens@.subrange(0, tokens@.len() as int) =~= tokens@);
    None
}

/// A match after none in a prefix is the first.
proof fn lemma_first_token(tokens: Seq<ResetToken>, token: Seq<char>, i: int)
    requires
        0 <= i < tokens.len(),
        token_index(tokens.subrange(0, i), token) is None,
        tokens[i].token@ == token,
    ensures
        token_index(tokens, token) == Some(i),
    decreases tokens.len() - i,
{
    if i == tokens.len() - 1 {
        assert(tokens.drop_last() =~= tokens.subrange(0, i));
    } else {
        assert(tokens.drop_last().subrange(0, i) =~= tokens.subrange(0, i));
        lemma_first_token(tokens.drop_last(), token, i);
    }
}

/// The text of a hashing refusal: a broken rule's text, or, where no rule is broken, the
/// text of a hashing failure.
proof fn lemma_hashing_refusal(ps: PasswordService, password: &str, e: crate::password::PasswordError, m: Seq<char>)
    requires
        m == password_error_text(e),
        password_violation(ps, password@, password.len() as nat) matches Some(v) ==> e == v,
        password_violation(ps, password@, password.len() as nat) is None ==> (e matches crate::password::PasswordError::HashingError(
            t,
        ) && exists|salt: Seq<char>|
            argon2_phc(password.spec_bytes(), salt) == Err::<Seq<char>, Seq<char>>(t@)),
    ensures
        password_violation(ps, password@, password.len() as nat) is None ==> hashing_failure_text(password.spec_bytes(), m),
{
    if password_violation(ps, password@, password.len() as nat) is None {
        if let crate::password::PasswordError::HashingError(t) = e {
            let salt = choose|salt: Seq<char>|
                argon2_phc(password.spec_bytes(), salt) == Err::<Seq<char>, Seq<char>>(t@);
            assert(argon2_phc(password.spec_bytes(), salt) == Err::<Seq<char>, Seq<char>>(t@) && m
                == "Password hashing failed: "@ + t@);
        }
    }
}

/// The answer to every password reset request.
pub open spec fn reset_request_answer() -> Seq<char> {
    "If an account with that email exists, a password reset link has been sent."@
}

fn reset_request_message() -> (m: String)
    ensures
        m@ == reset_request_answer(),
{
    String::from_str("If an account with that email exists, a password reset link has been sent.")
}

/// What a login at `now` does to the service and answers (see `login_at`).
pub open spec fn login_effect(
    old: AuthServiceState,
    new: AuthServiceState,
    email: Seq<char>,
    password: Seq<u8>,
    now: i64,
    r: AuthOutcome,
) -> bool {
    &&& new.password_service == old.password_service
    &&& new.password_reset_tokens == old.password_reset_tokens
    &&& match user_index(old.users@, email) {
                None => r is Unauthorized && new.users == old.users,
                Some(i) => {
                    let u = old.users@[i];
                    if u.spec_locked_at(now) {
                        new.users == old.users && (r matches AuthOutcome::Refused(m) && m@
                            == "Account is temporarily locked due to multiple failed login attempts"@)
                    } else {
                        match argon2_check(password, u.password_hash@) {
                            Err(_) => r is ServerError && new.users == old.users,
                            Ok(false) => new.users@ == old.users@.update(i, after_failed_login(u, now))
                                && (r matches AuthOutcome::Refused(m) && m@ == "Invalid credentials"@),
                            Ok(true) => if !u.is_active {
                                new.users == old.users && (r matches AuthOutcome::Refused(m) && m@
                                    == "Account is deactivated"@)
                            } else {
                                new.users@ == old.users@.update(i, after_login(u, now)) && (
                                r matches AuthOutcome::Success(Some(x)) && same_user(x, after_login(u, now)))
                            },
                        }
                    }
                },
            }
}

impl AuthServiceState {
    /// The store keyed as the service keys it: one account per email, one pending reset
    /// per token.
    pub open spec fn wf(&self) -> bool {
        distinct_emails(self.users@) && distinct_tokens(self.password_reset_tokens@)
    }

    /// A service with the given accounts and no pending resets.
    pub fn with_users(password_service: PasswordService, users: Vec<User>) -> (s: Self)
        ensures
            s.password_service == password_service,
            s.users == users,
            s.password_reset_tokens@.len() == 0,
            s.wf() == distinct_emails(users@),
    {
        AuthServiceState { password_service, users, password_reset_tokens: Vec::new() }
    }

    /// A copy of the account with `email`, if there is one.
    pub fn find_user_by_email(&self, email: &str) -> (r: Option<User>)
        ensures
            match user_index(self.users@, email@) {
                Some(i) => r matches Some(u) && same_user(u, self.users@[i]),
                None => r is None,
            },
    {
        match find_user(&self.users, email) {
            Some(i) => Some(copy_user(&self.users[i])),
            None => None,
        }
    }

    /// Replaces the first account with the same email by `user`, or adds it.
    pub fn update_user(&mut self, user: User)
        ensures
            old(self).wf() ==> final(self).wf(),
            final(self).password_service == old(self).password_service,
            final(self).password_reset_tokens == old(self).password_reset_tokens,
            match user_index(old(self).users@, user.email@) {
                Some(i) => final(self).users@ == old(self).users@.update(i, user),
                None => final(self).users@ == old(self).users@.push(user),
            },
    {
        proof {
            lemma_user_index(self.users@, user.email@);
        }
        match find_user(&self.users, user.email.as_str()) {
            Some(i) => {
                self.users.set(i, user);
            },
            None => {
                self.users.push(user);
            },
        }
    }

    /// Creates an active account with `id` at `now`, its password hashed: an email that
    /// is taken is refused, as is a password the rules refuse (with the error's text).
    pub fn create_user_at(&mut self, email: String, password: &str, role: UserRole, id: u128, now: i64) -> (r:
        Result<(), String>)
        ensures
            old(self).wf() ==> final(self).wf(),
            final(self).password_service == old(self).password_service,
            final(self).password_reset_tokens == old(self).password_reset_tokens,
            user_index(old(self).users@, email@) is Some ==> (r matches Err(m) && m@ == "User already exists"@)
                && final(self).users == old(self).users,
            user_index(old(self).users@, email@) is None ==> match r {
                Ok(()) => final(self).users@.len() == old(self).users@.len() + 1 && final(self).users@.drop_last()
                    == old(self).users@ && ({
                    let u = final(self).users@.last();
                    u.id == id && u.email@ == email@ && u.role == role && u.is_active && u.created_at == now
                        && u.last_login is None && u.failed_login_attempts == 0 && u.locked_until is None
                        && exists|salt: Seq<char>|
                        crate::password::argon2_phc(password.spec_bytes(), salt) == Ok::<Seq<char>, Seq<char>>(
                            u.password_hash@,
                        ) && argon2_check(password.spec_bytes(), u.password_hash@) == Ok::<bool, Seq<char>>(true)
                }),
                Err(_) => final(self).users == old(self).users,
            },
            user_index(old(self).users@, email@) is None ==> match password_violation(
                old(self).password_service,
                password@,
                password.len() as nat,
            ) {
                Some(e) => r matches Err(m) && m@ == password_error_text(e),
                None => r is Ok || (r matches Err(m) && hashing_failure_text(password.spec_bytes(), m@)),
            },
    {
        if find_user(&self.users, email.as_str()).is_some() {
            return Err(String::from_str("User already exists"));
        }
        let hash = match self.password_service.hash_password(password) {
            Ok(h) => h,
            Err(e) => {
                let m = e.message();
                proof {
                    lemma_hashing_refusal(self.password_service, password, e, m@);
                }
                return Err(m);
            },
        };
        proof {
            lemma_user_index(self.users@, email@);
        }
        let user = User::new_at(email, hash, role, id, now);
        self.users.push(user);
        assert(self.users@.drop_last() =~= old(self).users@);
        Ok(())
    }

    /// A login at `now`: an unknown email is `Unauthorized`; a locked account is refused;
    /// a password check that fails is a `ServerError`; a wrong password is refused and
    /// counts as a failed login; an inactive account is refused; otherwise the login is
    /// recorded and the account returned.
    pub fn login_at(&mut self, email: &str, password: &str, now: i64) -> (r: AuthOutcome)
        ensures
            old(self).wf() ==> final(self).wf(),
            login_effect(*old(self), *final(self), email@, password.spec_bytes(), now, r),
    {
        let i = match find_user(&self.users, email) {
            Some(i) => i,
            None => {
                return AuthOutcome::Unauthorized;
            },
        };
        if self.users[i].is_locked_at(now) {
            return AuthOutcome::Refused(
                String::from_str("Account is temporarily locked due to multiple failed login attempts"),
            );
        }
        let valid = match self.password_service.verify_password(password, self.users[i].password_hash.as_str()) {
            Ok(v) => v,
            Err(_) => {
                return AuthOutcome::ServerError;
            },
        };
        if !valid {
            let mut u = self.users.remove(i);
            if u.failed_login_attempts < i32::MAX {
                u.record_failed_login_at(now);
            }
            self.users.insert(i, u);
            assert(self.users@ =~= old(self).users@.update(i as int, after_failed_login(old(self).users@[i as int], now)));
            return AuthOutcome::Refused(String::from_str("Invalid credentials"));
        }
        if !self.users[i].is_active {
            return AuthOutcome::Refused(String::from_str("Account is deactivated"));
        }
        let mut u = self.users.remove(i);
        u.record_successful_login_at(now);
        let copy = copy_user(&u);
        self.users.insert(i, u);
        assert(self.users@ =~= old(self).users@.update(i as int, after_login(old(self).users@[i as int], now)));
        AuthOutcome::Success(Some(copy))
    }

    /// A login at `now` (milliseconds) that, when it succeeds, also issues the account's
    /// access and refresh tokens at `now` in whole seconds.
    pub fn login_with_tokens_at(&mut self, jwt: &JwtService, email: &str, password: &str, now: i64) -> (r: (
        AuthOutcome,
        Option<TokenPair>,
    ))
        requires
            0 <= now,
            i64::MIN <= now / 1000 + jwt.config.access_token_expiry <= i64::MAX,
            i64::MIN <= now / 1000 + jwt.config.refresh_token_expiry <= i64::MAX,
        ensures
            old(self).wf() ==> final(self).wf(),
            login_effect(*old(self), *final(self), email@, password.spec_bytes(), now, r.0),
            match r.0 {
                AuthOutcome::Success(Some(u)) => r.1 matches Some(p) && p.token_type@ == "Bearer"@ && p.expires_in
                    == jwt.config.access_token_expiry && p.access_token@ == hs256_token(
                    issued_access_claims(jwt.config, u, now / 1000),
                    secret_bytes(jwt.config),
                ) && p.refresh_token@ == hs256_token(
                    issued_refresh_claims(jwt.config, u, now / 1000),
                    secret_bytes(jwt.config),
                ) && decodes_to(p.access_token@, secret_bytes(jwt.config), issued_access_claims(jwt.config, u, now / 1000))
                    && decodes_to(
                    p.refresh_token@,
                    secret_bytes(jwt.config),
                    issued_refresh_claims(jwt.config, u, now / 1000),
                ),
                _ => r.1 is None,
            },
    {
        let outcome = self.login_at(email, password, now);
        let tokens = match &outcome {
            AuthOutcome::Success(Some(u)) => match jwt.generate_tokens_at(u, now / 1000) {
                Ok(p) => Some(p),
                Err(_) => None,
            },
            _ => None,
        };
        (outcome, tokens)
    }

    /// The account a refresh token renews access for: the account of the token's email,
    /// which must exist and be active (else `401`).
    pub fn refresh_account(&self, email: &str) -> (r: Result<User, u16>)
        ensures
            match user_index(self.users@, email@) {
                None => r == Err::<User, u16>(401),
                Some(i) => if self.users@[i].is_active {
                    r matches Ok(u) && same_user(u, self.users@[i])
                } else {
                    r == Err::<User, u16>(401)
                },
            },
    {
        match find_user(&self.users, email) {
            None => Err(401),
            Some(i) => {
                if !self.users[i].is_active {
                    return Err(401);
                }
                Ok(copy_user(&self.users[i]))
            },
        }
    }

    /// A password change by the signed-in account `email`: an unknown account is
    /// `Unauthorized`; a failing check a `ServerError`; a wrong current password, or a new
    /// one that the rules refuse (with the error's text), is refused; otherwise the new
    /// hash is stored.
    pub fn change_password(&mut self, email: &str, current_password: &str, new_password: &str) -> (r: AuthOutcome)
        ensures
            old(self).wf() ==> final(self).wf(),
            final(self).password_service == old(self).password_service,
            final(self).password_reset_tokens == old(self).password_reset_tokens,
            match user_index(old(self).users@, email@) {
                None => r is Unauthorized && final(self).users == old(self).users,
                Some(i) => match argon2_check(current_password.spec_bytes(), old(self).users@[i].password_hash@) {
                    Err(_) => r is ServerError && final(self).users == old(self).users,
                    Ok(false) => final(self).users == old(self).users && (r matches AuthOutcome::Refused(m) && m@
                        == "Current password is incorrect"@),
                    Ok(true) => {
                        &&& match r {
                            AuthOutcome::Success(None) => final(self).users@.len() == old(self).users@.len() && (
                            forall|j: int|
                                0 <= j < old(self).users@.len() && j != i ==> final(self).users@[j] == old(
                                    self,
                                ).users@[j]) && final(self).users@[i] == (User {
                                password_hash: final(self).users@[i].password_hash,
                                ..old(self).users@[i]
                            }) && (exists|salt: Seq<char>|
                                crate::password::argon2_phc(new_password.spec_bytes(), salt) == Ok::<
                                    Seq<char>,
                                    Seq<char>,
                                >(final(self).users@[i].password_hash@)) && argon2_check(
                                new_password.spec_bytes(),
                                final(self).users@[i].password_hash@,
                            ) == Ok::<bool, Seq<char>>(true),
                            AuthOutcome::Refused(_) => final(self).users == old(self).users,
                            _ => false,
                        }
                        &&& match password_violation(
                            old(self).password_service,
                            new_password@,
                            new_password.len() as nat,
                        ) {
                            Some(e) => r matches AuthOutcome::Refused(m) && m@ == password_error_text(e),
                            None => r is Success || (r matches AuthOutcome::Refused(m) && hashing_failure_text(
                                new_password.spec_bytes(),
                                m@,
                            )),
                        }
                    },
                },
            },
    {
        let i = match find_user(&self.users, email) {
            Some(i) => i,
            None => {
                return AuthOutcome::Unauthorized;
            },
        };
        let valid = match self.password_service.verify_password(current_password, self.users[i].password_hash.as_str()) {
            Ok(v) => v,
            Err(_) => {
                return AuthOutcome::ServerError;
            },
        };
        if !valid {
            return AuthOutcome::Refused(String::from_str("Current password is incorrect"));
        }
        let hash = match self.password_service.hash_password(new_password) {
            Ok(h) => h,
            Err(e) => {
                let m = e.message();
                proof {
                    lemma_hashing_refusal(self.password_service, new_password, e, m@);
                }
                return AuthOutcome::Refused(m);
            },
        };
        let mut u = self.users.remove(i);
        u.password_hash = hash;
        self.users.insert(i, u);
        AuthOutcome::Success(None)
    }

    /// Records a password reset request at `now` under `token`: for an existing account,
    /// the token is valid for an hour (replacing an earlier entry for the same token).
    /// The answer is the same whether or not the account exists.
    pub fn request_password_reset_at(&mut self, email: &str, token: String, now: i64) -> (r: String)
        requires
            now + 3600000 <= i64::MAX,
        ensures
            old(self).wf() ==> final(self).wf(),
            r@ == reset_request_answer(),
            final(self).users == old(self).users,
            final(self).password_service == old(self).password_service,
            match user_index(old(self).users@, email@) {
                None => final(self).password_reset_tokens == old(self).password_reset_tokens,
                Some(i) => {
                    let entry = |e: ResetToken| e.token@ == token@ && e.user_id == old(self).users@[i].id && e.expires_at
                        == now + 3600000;
                    match token_index(old(self).password_reset_tokens@, token@) {
                        Some(k) => final(self).password_reset_tokens@.len() == old(self).password_reset_tokens@.len()
                            && (forall|j: int|
                            0 <= j < old(self).password_reset_tokens@.len() && j != k
                                ==> final(self).password_reset_tokens@[j] == old(self).password_reset_tokens@[j])
                            && entry(final(self).password_reset_tokens@[k]),
                        None => final(self).password_reset_tokens@.drop_last() == old(self).password_reset_tokens@
                            && final(self).password_reset_tokens@.len() == old(self).password_reset_tokens@.len() + 1
                            && entry(final(self).password_reset_tokens@.last()),
                    }
                },
            },
    {
        let i = match find_user(&self.users, email) {
            Some(i) => i,
            None => {
                return reset_request_message();
            },
        };
        proof {
            lemma_token_index(self.password_reset_tokens@, token@);
        }
        let entry = ResetToken { token: String::from_str(token.as_str()), user_id: self.users[i].id, expires_at: now + 3600000 };
        match find_token(&self.password_reset_tokens, token.as_str()) {
            Some(k) => {
                self.password_reset_tokens.set(k, entry);
            },
            None => {
                self.password_reset_tokens.push(entry);
                assert(self.password_reset_tokens@.drop_last() =~= old(self).password_reset_tokens@);
            },
        }
        reset_request_message()
    }

    /// Completes a password reset at `now`: the token's entry is taken out; an unknown
    /// token, or one that has expired, is refused; an account that no longer exists is a
    /// `ServerError`; a new password that the rules refuse is refused (with the error's
    /// text); otherwise the new hash is stored and the account unlocked.
    pub fn confirm_password_reset_at(&mut self, token: &str, new_password: &str, now: i64) -> (r: AuthOutcome)
        ensures
            old(self).wf() ==> final(self).wf(),
            final(self).password_service == old(self).password_service,
            match token_index(old(self).password_reset_tokens@, token@) {
                None => final(self).password_reset_tokens == old(self).password_reset_tokens && final(self).users
                    == old(self).users && (r matches AuthOutcome::Refused(m) && m@ == "Invalid or expired reset token"@),
                Some(k) => {
                    let e = old(self).password_reset_tokens@[k];
                    &&& final(self).password_reset_tokens@ == old(self).password_reset_tokens@.remove(k)
                    &&& if now > e.expires_at {
                        final(self).users == old(self).users && (r matches AuthOutcome::Refused(m) && m@
                            == "Reset token has expired"@)
                    } else {
                        match user_index_by_id(old(self).users@, e.user_id) {
                            None => r is ServerError && final(self).users == old(self).users,
                            Some(i) => {
                                &&& match r {
                                    AuthOutcome::Success(None) => final(self).users@.len() == old(self).users@.len()
                                        && (forall|j: int|
                                        0 <= j < old(self).users@.len() && j != i ==> final(self).users@[j] == old(
                                            self,
                                        ).users@[j]) && final(self).users@[i] == (User {
                                        password_hash: final(self).users@[i].password_hash,
                                        locked_until: None,
                                        failed_login_attempts: 0,
                                        ..old(self).users@[i]
                                    }) && (exists|salt: Seq<char>|
                                        crate::password::argon2_phc(new_password.spec_bytes(), salt) == Ok::<
                                            Seq<char>,
                                            Seq<char>,
                                        >(final(self).users@[i].password_hash@)) && argon2_check(
                                        new_password.spec_bytes(),
                                        final(self).users@[i].password_hash@,
                                    ) == Ok::<bool, Seq<char>>(true),
                                    AuthOutcome::Refused(_) => final(self).users == old(self).users,
                                    _ => false,
                                }
                                &&& match password_violation(
                                    old(self).password_service,
                                    new_password@,
                                    new_password.len() as nat,
                                ) {
                                    Some(pe) => r matches AuthOutcome::Refused(m) && m@ == password_error_text(pe),
                                    None => r is Success || (r matches AuthOutcome::Refused(m) && hashing_failure_text(
                                        new_password.spec_bytes(),
                                        m@,
                                    )),
                                }
                            },
                        }
                    }
                },
            },
    {
        let k = match find_token(&self.password_reset_tokens, token) {
            Some(k) => k,
            None => {
                return AuthOutcome::Refused(String::from_str("Invalid or expired reset token"));
            },
        };
        let entry = self.password_reset_tokens.remove(k);
        if now > entry.expires_at {
            return AuthOutcome::Refused(String::from_str("Reset token has expired"));
        }
        let i = match find_user_by_id(&self.users, entry.user_id) {
            Some(i) => i,
            None => {
                return AuthOutcome::ServerError;
            },
        };
        let hash = match self.password_service.hash_password(new_password) {
            Ok(h) => h,
            Err(e) => {
                let m = e.message();
                proof {
                    lemma_hashing_refusal(self.password_service, new_password, e, m@);
                }
                return AuthOutcome::Refused(m);
            },
        };
        let mut u = self.users.remove(i);
        u.password_hash = hash;
        u.unlock_account();
        self.users.insert(i, u);
        AuthOutcome::Success(None)
    }
}

} // verus!

//! User accounts, roles and the role-based access rules.
use vstd::prelude::*;
use crate::clock::{now_millis, new_uuid_v4};

verus! {

/// Failed logins after which an account is locked.
pub const MAX_FAILED_LOGINS: i32 = 5;

/// Minutes for which an account stays locked after too many failed logins.
pub const LOCKOUT_MINUTES: i64 = 15;

/// Milliseconds in a minute.
pub const MILLIS_PER_MINUTE: i64 = 60000;

/// Largest lock duration, in minutes, that `lock_account` accepts: the largest whole number
/// of minutes whose span in milliseconds fits an `i64`.
pub const MAX_LOCK_MINUTES: i64 = 153722867280912;

/// User roles for role-based access control.
#[derive(Debug, Clone, Copy, PartialEq, Eq, Structural)]
pub enum UserRole {
    Admin,
    User,
    Validator,
    ReadOnly,
}

/// Whether a role may use the protected endpoints.
pub open spec fn spec_can_access_protected(r: UserRole) -> bool {
    r == UserRole::Admin || r == UserRole::User || r == UserRole::Validator
}

/// Whether a role may read analytics.
pub open spec fn spec_can_view_analytics(r: UserRole) -> bool {
    r == UserRole::Admin || r == UserRole::User || r == UserRole::ReadOnly
}

/// Whether a user of role `user` passes a check that requires role `required`.
pub open spec fn spec_can_access_with_role(user: UserRole, required: UserRole) -> bool {
    match required {
        UserRole::Admin => user == UserRole::Admin,
        UserRole::User => spec_can_access_protected(user),
        UserRole::Validator => user == UserRole::Admin || user == UserRole::Validator,
        UserRole::ReadOnly => spec_can_view_analytics(user),
    }
}

impl UserRole {
    /// Whether the role has administrative privileges.
    pub fn is_admin(&self) -> (r: bool)
        ensures
            r <==> *self == UserRole::Admin,
    {
        matches!(self, UserRole::Admin)
    }

    /// Whether the role may use the protected endpoints (everyone but read-only users).
    pub fn can_access_protected(&self) -> (r: bool)
        ensures
            r == spec_can_access_protected(*self),
    {
        matches!(self, UserRole::Admin | UserRole::User | UserRole::Validator)
    }

    /// Whether the role may read analytics (everyone but validators).
    pub fn can_view_analytics(&self) -> (r: bool)
        ensures
            r == spec_can_view_analytics(*self),
    {
        matches!(self, UserRole::Admin | UserRole::User | UserRole::ReadOnly)
    }
}

/// Whether a user of role `user_role` may reach an endpoint that requires `required_role`.
pub fn can_access_with_role(user_role: &UserRole, required_role: &UserRole) -> (r: bool)
    ensures
        r == spec_can_access_with_role(*user_role, *required_role),
{
    match required_role {
        UserRole::Admin => user_role.is_admin(),
        UserRole::User => user_role.can_access_protected(),
        UserRole::Validator => matches!(user_role, UserRole::Admin | UserRole::Validator),
        UserRole::ReadOnly => user_role.can_view_analytics(),
    }
}

/// An administrator passes every role check.
pub proof fn lemma_admin_accesses_everything(required: UserRole)
    ensures
        spec_can_access_with_role(UserRole::Admin, required),
{
}

/// Every role passes a check for its own role.
pub proof fn lemma_role_accesses_itself(role: UserRole)
    ensures
        spec_can_access_with_role(role, role),
{
}

/// Only an administrator passes an administrator check.
pub proof fn lemma_admin_check_only_admin(role: UserRole)
    ensures
        spec_can_access_with_role(role, UserRole::Admin) <==> role == UserRole::Admin,
{
}

/// User account for authentication; times are milliseconds since the Unix epoch.
#[derive(Debug, Clone)]
pub struct User {
    pub id: u128,
    pub email: String,
    pub password_hash: String,
    pub role: UserRole,
    pub is_active: bool,
    pub created_at: i64,
    pub last_login: Option<i64>,
    pub failed_login_attempts: i32,
    pub locked_until: Option<i64>,
}

/// Public user information (no secrets).
#[derive(Debug, Clone)]
pub struct UserInfo {
    pub id: u128,
    pub email: String,
    pub role: UserRole,
    pub last_login: Option<i64>,
}

/// JWT claims carried by an access token.
#[derive(Debug, Clone)]
pub struct Claims {
    pub sub: String,
    pub email: String,
    pub role: UserRole,
    pub exp: i64,
    pub iat: i64,
    pub nbf: i64,
    pub iss: String,
    pub aud: String,
}

/// Login request.
#[derive(Debug, Clone)]
pub struct LoginRequest {
    pub email: String,
    pub password: String,
}

/// Token refresh request.
#[derive(Debug, Clone)]
pub struct RefreshTokenRequest {
    pub refresh_token: String,
}

/// Password change request.
#[derive(Debug, Clone)]
pub struct ChangePasswordRequest {
    pub current_password: String,
    pub new_password: String,
}

/// Password reset request.
#[derive(Debug, Clone)]
pub struct PasswordResetRequest {
    pub email: String,
}

/// Password reset confirmation.
#[derive(Debug, Clone)]
pub struct PasswordResetConfirm {
    pub token: String,
    pub new_password: String,
}

/// `now + minutes` minutes, clamped to the range of `i64`.
pub open spec fn lock_deadline(now: i64, minutes: i64) -> int {
    let t = now + minutes * 60000;
    if t > i64::MAX {
        i64::MAX as int
    } else if t < i64::MIN {
        i64::MIN as int
    } else {
        t
    }
}

impl User {
    /// The account after one failed login at `now`.
    pub open spec fn failed_login_step(self, now: i64) -> User {
        let attempts = self.failed_login_attempts + 1;
        User {
            failed_login_attempts: attempts as i32,
            locked_until: if attempts >= MAX_FAILED_LOGINS {
                Some(lock_deadline(now, LOCKOUT_MINUTES) as i64)
            } else {
                self.locked_until
            },
            ..self
        }
    }

    /// Whether the account is locked at time `now`.
    pub open spec fn spec_locked_at(self, now: i64) -> bool {
        match self.locked_until {
            Some(t) => now < t,
            None => false,
        }
    }

    /// A new active account with the given role, no failed logins and no lock,
    /// created at `now` with identifier `id`.
    pub fn new_at(email: String, password_hash: String, role: UserRole, id: u128, now: i64) -> (u: Self)
        ensures
            u.id == id,
            u.email@ == email@,
            u.password_hash@ == password_hash@,
            u.role == role,
            u.is_active,
            u.created_at == now,
            u.last_login.is_none(),
            u.failed_login_attempts == 0,
            u.locked_until.is_none(),
    {
        User {
            id,
            email,
            password_hash,
            role,
            is_active: true,
            created_at: now,
            last_login: None,
            failed_login_attempts: 0,
            locked_until: None,
        }
    }

    /// A new active account with a random identifier, created now.
    pub fn new(email: String, password_hash: String, role: UserRole) -> (u: Self)
        ensures
            u.email@ == email@,
            u.password_hash@ == password_hash@,
            u.role == role,
            u.is_active,
            u.last_login.is_none(),
            u.failed_login_attempts == 0,
            u.locked_until.is_none(),
    {
        let id = new_uuid_v4();
        let now = now_millis();
        Self::new_at(email, password_hash, role, id, now)
    }

    /// Whether the account is locked at time `now`.
    pub fn is_locked_at(&self, now: i64) -> (r: bool)
        ensures
            r == self.spec_locked_at(now),
    {
        match self.locked_until {
            Some(t) => now < t,
            None => false,
        }
    }

    /// Whether the account is locked now: locked at the clock's reading.
    pub fn is_locked(&self) -> (r: bool)
        ensures
            self.locked_until.is_none() ==> !r,
            exists|now: i64| r == #[trigger] self.spec_locked_at(now),
    {
        let now = now_millis();
        self.is_locked_at(now)
    }

    /// Locks the account from `now` for `duration_minutes` minutes.
    pub fn lock_account_at(&mut self, now: i64, duration_minutes: i64)
        requires
            -MAX_LOCK_MINUTES <= duration_minutes <= MAX_LOCK_MINUTES,
        ensures
            *final(self) == (User {
                locked_until: Some(lock_deadline(now, duration_minutes) as i64),
                ..*old(self)
            }),
    {
        let delta: i64 = duration_minutes * MILLIS_PER_MINUTE;
        let until: i64 = if delta > 0 && now > i64::MAX - delta {
            i64::MAX
        } else if delta < 0 && now < i64::MIN - delta {
            i64::MIN
        } else {
            now + delta
        };
        self.locked_until = Some(until);
    }

    /// Locks the account from now for `duration_minutes` minutes.
    pub fn lock_account(&mut self, duration_minutes: i64)
        requires
            -MAX_LOCK_MINUTES <= duration_minutes <= MAX_LOCK_MINUTES,
        ensures
            final(self).locked_until.is_some(),
            final(self).failed_login_attempts == old(self).failed_login_attempts,
            exists|now: i64|
                *final(self) == (User { locked_until: Some(#[trigger] lock_deadline(now, duration_minutes) as i64), ..*old(self) }),
    {
        let now = now_millis();
        self.lock_account_at(now, duration_minutes);
        assert(*self == (User { locked_until: Some(lock_deadline(now, duration_minutes) as i64), ..*old(self) }));
    }

    /// Clears the lock and the failed-login count.
    pub fn unlock_account(&mut self)
        ensures
            *final(self) == (User { locked_until: None, failed_login_attempts: 0, ..*old(self) }),
    {
        self.locked_until = None;
        self.failed_login_attempts = 0;
    }

    /// Records a failed login at `now`; the fifth and every later failure locks the
    /// account for fifteen minutes from `now`.
    pub fn record_failed_login_at(&mut self, now: i64)
        requires
            old(self).failed_login_attempts < i32::MAX,
        ensures
            *final(self) == old(self).failed_login_step(now),
    {
        self.failed_login_attempts = self.failed_login_attempts + 1;
        if self.failed_login_attempts >= MAX_FAILED_LOGINS {
            self.lock_account_at(now, LOCKOUT_MINUTES);
        }
    }

    /// Records a failed login now; see `record_failed_login_at`.
    pub fn record_failed_login(&mut self)
        requires
            old(self).failed_login_attempts < i32::MAX,
        ensures
            final(self).failed_login_attempts == old(self).failed_login_attempts + 1,
            final(self).failed_login_attempts >= MAX_FAILED_LOGINS ==> final(self).locked_until.is_some(),
            final(self).failed_login_attempts < MAX_FAILED_LOGINS ==> final(self).locked_until == old(self).locked_until,
            exists|now: i64| *final(self) == #[trigger] old(self).failed_login_step(now),
    {
        let now = now_millis();
        self.record_failed_login_at(now);
        assert(*self == old(self).failed_login_step(now));
    }

    /// Records a successful login at `now`: the failure count and the lock are cleared.
    pub fn record_successful_login_at(&mut self, now: i64)
        ensures
            *final(self) == (User {
                last_login: Some(now),
                failed_login_attempts: 0,
                locked_until: None,
                ..*old(self)
            }),
    {
        self.last_login = Some(now);
        self.failed_login_attempts = 0;
        self.locked_until = None;
    }

    /// Records a successful login now.
    pub fn record_successful_login(&mut self)
        ensures
            final(self).last_login.is_some(),
            final(self).failed_login_attempts == 0,
            final(self).locked_until.is_none(),
            exists|now: i64|
                *final(self) == (User {
                    last_login: Some(now),
                    failed_login_attempts: 0,
                    locked_until: None,
                    ..*old(self)
                }) && #[trigger] final(self).last_login == Some(now),
    {
        let now = now_millis();
        self.record_successful_login_at(now);
    }

    /// Public information about the account.
    pub fn to_public_info(&self) -> (info: UserInfo)
        ensures
            info.id == self.id,
            info.email@ == self.email@,
            info.role == self.role,
            info.last_login == self.last_login,
    {
        UserInfo {
            id: self.id,
            email: self.email.clone(),
            role: self.role,
            last_login: self.last_login,
        }
    }
}

/// A lock taken at `now` for a positive number of minutes holds at `now`.
pub proof fn lemma_fresh_lock_holds(u: User, now: i64, minutes: i64)
    requires
        0 < minutes <= MAX_LOCK_MINUTES,
        now < i64::MAX,
        u.locked_until == Some(lock_deadline(now, minutes) as i64),
    ensures
        u.spec_locked_at(now),
{
}

/// The fifth consecutive failed login locks the account at the moment it happens.
pub proof fn lemma_fifth_failure_locks(u: User, now: i64)
    requires
        u.failed_login_attempts == MAX_FAILED_LOGINS - 1,
        now < i64::MAX,
    ensures
        u.failed_login_step(now).failed_login_attempts == MAX_FAILED_LOGINS,
        u.failed_login_step(now).spec_locked_at(now),
{
}

/// Fewer than five failures never change the lock.
pub proof fn lemma_early_failures_keep_lock(u: User, now: i64)
    requires
        0 <= u.failed_login_attempts < MAX_FAILED_LOGINS - 1,
    ensures
        u.failed_login_step(now).locked_until == u.locked_until,
        u.failed_login_step(now).failed_login_attempts == u.failed_login_attempts + 1,
{
}

/// After an unlock the account is not locked at any time.
pub proof fn lemma_unlocked_never_locked(u: User, now: i64)
    requires
        u.locked_until.is_none(),
    ensures
        !u.spec_locked_at(now),
{
}

} // verus!

//! Password strength rules, strength assessment, generation and Argon2 hashing.
use vstd::prelude::*;
use vstd::string::StringSliceAdditionalSpecFns;
use argon2::password_hash::{PasswordHasher, PasswordVerifier};
use rand::Rng;
use crate::text::{
    string_from_chars,
    chars_of, char_code, char_is_ascii_digit, char_is_ascii_lower, char_is_ascii_upper,
    contains_lower, find_lower, is_ascii_char, is_ascii_control, is_ascii_digit, is_ascii_lower,
    is_ascii_upper,
};

verus! {

/// Password validation error types.
#[derive(Debug, Clone, PartialEq, Eq)]
pub enum PasswordError {
    TooShort,
    NoUppercase,
    NoLowercase,
    NoDigit,
    NoSpecialChar,
    InvalidCharacters,
    TooCommon,
    HashingError(String),
    VerificationError(String),
}

/// The text of a password error.
pub open spec fn password_error_text(e: PasswordError) -> Seq<char> {
    match e {
        PasswordError::TooShort => "Password is too short (minimum 12 characters)"@,
        PasswordError::NoUppercase => "Password must contain at least one uppercase letter"@,
        PasswordError::NoLowercase => "Password must contain at least one lowercase letter"@,
        PasswordError::NoDigit => "Password must contain at least one digit"@,
        PasswordError::NoSpecialChar => "Password must contain at least one special character"@,
        PasswordError::InvalidCharacters => "Password contains invalid characters"@,
        PasswordError::TooCommon => "Password is too common or easily guessable"@,
        PasswordError::HashingError(m) => "Password hashing failed: "@ + m@,
        PasswordError::VerificationError(m) => "Password verification failed: "@ + m@,
    }
}

impl PasswordError {
    /// The error's text.
    pub fn message(&self) -> (s: String)
        ensures
            s@ == password_error_text(*self),
    {
        match self {
            PasswordError::TooShort => String::from_str("Password is too short (minimum 12 characters)"),
            PasswordError::NoUppercase => String::from_str("Password must contain at least one uppercase letter"),
            PasswordError::NoLowercase => String::from_str("Password must contain at least one lowercase letter"),
            PasswordError::NoDigit => String::from_str("Password must contain at least one digit"),
            PasswordError::NoSpecialChar => String::from_str("Password must contain at least one special character"),
            PasswordError::InvalidCharacters => String::from_str("Password contains invalid characters"),
            PasswordError::TooCommon => String::from_str("Password is too common or easily guessable"),
            PasswordError::HashingError(m) => {
                let mut s = String::from_str("Password hashing failed: ");
                s.append(m.as_str());
                s
            },
            PasswordError::VerificationError(m) => {
                let mut s = String::from_str("Password verification failed: ");
                s.append(m.as_str());
                s
            },
        }
    }
}

/// Password security configuration.
#[derive(Debug, Clone, Copy, PartialEq, Eq)]
pub struct PasswordConfig {
    pub min_length: usize,
    pub require_uppercase: bool,
    pub require_lowercase: bool,
    pub require_digit: bool,
    pub require_special_char: bool,
    pub check_common_passwords: bool,
}

/// The default configuration: at least twelve bytes and every rule on.
pub open spec fn default_password_config() -> PasswordConfig {
    PasswordConfig {
        min_length: 12,
        require_uppercase: true,
        require_lowercase: true,
        require_digit: true,
        require_special_char: true,
        check_common_passwords: true,
    }
}

impl PasswordConfig {
    /// The defaults: at least twelve bytes and every character class required.
    pub fn default() -> (c: Self)
        ensures
            c == default_password_config(),
    {
        PasswordConfig {
            min_length: 12,
            require_uppercase: true,
            require_lowercase: true,
            require_digit: true,
            require_special_char: true,
            check_common_passwords: true,
        }
    }
}

/// Password strength levels.
#[derive(Debug, Clone, Copy, PartialEq, Eq, Structural)]
pub enum PasswordStrength {
    Weak,
    Fair,
    Good,
    Strong,
}

impl PasswordStrength {
    /// The level's lower-case name.
    pub fn as_str(&self) -> (s: &'static str)
        ensures
            *self == PasswordStrength::Weak ==> s@ == "weak"@,
            *self == PasswordStrength::Fair ==> s@ == "fair"@,
            *self == PasswordStrength::Good ==> s@ == "good"@,
            *self == PasswordStrength::Strong ==> s@ == "strong"@,
    {
        match self {
            PasswordStrength::Weak => "weak",
            PasswordStrength::Fair => "fair",
            PasswordStrength::Good => "good",
            PasswordStrength::Strong => "strong",
        }
    }
}

/// One of the special characters `!@#$%^&*()_+-=[]{}|;:,.<>?`.
pub open spec fn is_special_char(c: char) -> bool {
    c == '!' || c == '@' || c == '#' || c == '$' || c == '%' || c == '^' || c == '&' || c == '*'
        || c == '(' || c == ')' || c == '_' || c == '+' || c == '-' || c == '=' || c == '['
        || c == ']' || c == '{' || c == '}' || c == '|' || c == ';' || c == ':' || c == ','
        || c == '.' || c == '<' || c == '>' || c == '?'
}

pub fn char_is_special(c: char) -> (r: bool)
    ensures
        r == is_special_char(c),
{
    c == '!' || c == '@' || c == '#' || c == '$' || c == '%' || c == '^' || c == '&' || c == '*'
        || c == '(' || c == ')' || c == '_' || c == '+' || c == '-' || c == '=' || c == '['
        || c == ']' || c == '{' || c == '}' || c == '|' || c == ';' || c == ':' || c == ','
        || c == '.' || c == '<' || c == '>' || c == '?'
}

/// Whether `char::is_uppercase` holds of a character (Unicode `Uppercase` property).
pub uninterp spec fn unicode_is_uppercase(c: char) -> bool;

/// Whether `char::is_lowercase` holds of a character (Unicode `Lowercase` property).
pub uninterp spec fn unicode_is_lowercase(c: char) -> bool;

/// `char::is_uppercase`: the Unicode `Uppercase` property. Stated: the result is the
/// named property, and on ASCII characters it holds exactly of `A`..=`Z`, as std's
/// documentation gives.
#[verifier::external_body]
fn std_is_uppercase(c: char) -> (r: bool)
    ensures
        r == unicode_is_uppercase(c),
        is_ascii_char(c) ==> (r <==> is_ascii_upper(c)),
{
    c.is_uppercase()
}

/// `char::is_lowercase`: the Unicode `Lowercase` property. Stated: the result is the
/// named property, and on ASCII characters it holds exactly of `a`..=`z`.
#[verifier::external_body]
fn std_is_lowercase(c: char) -> (r: bool)
    ensures
        r == unicode_is_lowercase(c),
        is_ascii_char(c) ==> (r <==> is_ascii_lower(c)),
{
    c.is_lowercase()
}

/// Some character of `s` satisfies the Unicode upper-case property.
pub open spec fn has_upper(s: Seq<char>) -> bool {
    exists|i: int| 0 <= i < s.len() && unicode_is_uppercase(#[trigger] s[i])
}

/// Some character of `s` satisfies the Unicode lower-case property.
pub open spec fn has_lower(s: Seq<char>) -> bool {
    exists|i: int| 0 <= i < s.len() && unicode_is_lowercase(#[trigger] s[i])
}

/// Some character of `s` is an ASCII digit.
pub open spec fn has_digit(s: Seq<char>) -> bool {
    exists|i: int| 0 <= i < s.len() && is_ascii_digit(#[trigger] s[i])
}

/// Some character of `s` is a special character.
pub open spec fn has_special(s: Seq<char>) -> bool {
    exists|i: int| 0 <= i < s.len() && is_special_char(#[trigger] s[i])
}

/// Some character of `s` is an ASCII lower-case letter.
pub open spec fn has_ascii_lower(s: Seq<char>) -> bool {
    exists|i: int| 0 <= i < s.len() && is_ascii_lower(#[trigger] s[i])
}

/// Some character of `s` is an ASCII upper-case letter.
pub open spec fn has_ascii_upper(s: Seq<char>) -> bool {
    exists|i: int| 0 <= i < s.len() && is_ascii_upper(#[trigger] s[i])
}

/// Every character of `s` is printable ASCII.
pub open spec fn all_printable_ascii(s: Seq<char>) -> bool {
    forall|i: int| 0 <= i < s.len() ==> is_ascii_char(#[trigger] s[i]) && !is_ascii_control(s[i])
}

/// Some entry of `common` occurs in the ASCII lower-casing of `s`.
pub open spec fn contains_common(s: Seq<char>, common: Seq<Seq<char>>) -> bool {
    exists|k: int| 0 <= k < common.len() && contains_lower(s, #[trigger] common[k])
}

/// The first rule that a password with characters `s` and `byte_len` UTF-8 bytes breaks,
/// in the order in which the rules are checked; `None` when it breaks none.
pub open spec fn first_violation(
    cfg: PasswordConfig,
    common: Seq<Seq<char>>,
    s: Seq<char>,
    byte_len: nat,
) -> Option<PasswordError> {
    if byte_len < cfg.min_length {
        Some(PasswordError::TooShort)
    } else if cfg.require_uppercase && !has_upper(s) {
        Some(PasswordError::NoUppercase)
    } else if cfg.require_lowercase && !has_lower(s) {
        Some(PasswordError::NoLowercase)
    } else if cfg.require_digit && !has_digit(s) {
        Some(PasswordError::NoDigit)
    } else if cfg.require_special_char && !has_special(s) {
        Some(PasswordError::NoSpecialChar)
    } else if !all_printable_ascii(s) {
        Some(PasswordError::InvalidCharacters)
    } else if cfg.check_common_passwords && contains_common(s, common) {
        Some(PasswordError::TooCommon)
    } else {
        None
    }
}

/// Size of the character set that a password draws on, as the entropy estimate counts it:
/// 26 for ASCII lower case, 26 for upper case, 10 for digits, 23 for special characters.
pub open spec fn charset_size_of(s: Seq<char>) -> nat {
    (if has_ascii_lower(s) { 26nat } else { 0nat }) + (if has_ascii_upper(s) { 26nat } else { 0nat })
        + (if has_digit(s) { 10nat } else { 0nat }) + (if has_special(s) { 23nat } else { 0nat })
}

/// `b` to the power `e`.
pub open spec fn pow_nat(b: nat, e: nat) -> nat
    decreases e,
{
    if e == 0 {
        1
    } else {
        b * pow_nat(b, (e - 1) as nat)
    }
}

/// The strength level of a password whose estimated entropy is `len * log2(k)` bits:
/// below 35 bits weak, below 60 fair, below 120 good, else strong; a password with
/// no counted character class (k = 0) is weak. `len * log2(k) < t` is `k^len < 2^t`.
pub open spec fn strength_of(k: nat, len: nat) -> PasswordStrength {
    if k == 0 || pow_nat(k, len) < pow_nat(2, 35) {
        PasswordStrength::Weak
    } else if pow_nat(k, len) < pow_nat(2, 60) {
        PasswordStrength::Fair
    } else if pow_nat(k, len) < pow_nat(2, 120) {
        PasswordStrength::Good
    } else {
        PasswordStrength::Strong
    }
}

proof fn lemma_pow_monotone(b: nat, e1: nat, e2: nat)
    requires
        b >= 1,
        e1 <= e2,
    ensures
        pow_nat(b, e1) <= pow_nat(b, e2),
    decreases e2,
{
    if e2 > e1 {
        lemma_pow_monotone(b, e1, (e2 - 1) as nat);
        assert(pow_nat(b, e2) == b * pow_nat(b, (e2 - 1) as nat));
        assert(b * pow_nat(b, (e2 - 1) as nat) >= pow_nat(b, (e2 - 1) as nat)) by (nonlinear_arith)
            requires
                b >= 1,
        ;
    }
}

proof fn lemma_pow_add(b: nat, e1: nat, e2: nat)
    ensures
        pow_nat(b, e1 + e2) == pow_nat(b, e1) * pow_nat(b, e2),
    decreases e1,
{
    if e1 == 0 {
        assert(pow_nat(b, e1) == 1);
        assert(e1 + e2 == e2);
    } else {
        let e0 = (e1 - 1) as nat;
        lemma_pow_add(b, e0, e2);
        let x = pow_nat(b, e0);
        let y = pow_nat(b, e2);
        assert(e1 + e2 == (e0 + e2) + 1);
        assert(pow_nat(b, e1 + e2) == b * pow_nat(b, e0 + e2));
        assert(pow_nat(b, e1) == b * x);
        assert(b * (x * y) == (b * x) * y) by (nonlinear_arith);
    }
}

proof fn lemma_pow2_values()
    ensures
        pow_nat(2, 35) == 0x8_0000_0000,
        pow_nat(2, 60) == 0x1000_0000_0000_0000,
        pow_nat(2, 120) == 0x100_0000_0000_0000_0000_0000_0000_0000,
{
    reveal_with_fuel(pow_nat, 6);
    assert(pow_nat(2, 5) == 32);
    lemma_pow_add(2, 5, 5);
    assert(pow_nat(2, 10) == 1024);
    lemma_pow_add(2, 10, 10);
    lemma_pow_add(2, 20, 10);
    lemma_pow_add(2, 30, 5);
    assert(pow_nat(2, 20) == 1024 * 1024);
    assert(pow_nat(2, 30) == 1024 * 1024 * 1024);
    assert(pow_nat(2, 35) == 0x8_0000_0000);
    lemma_pow_add(2, 30, 30);
    assert(pow_nat(2, 60) == 0x1000_0000_0000_0000);
    lemma_pow_add(2, 60, 60);
}

/// Password hashing and validation service.
pub struct PasswordService {
    pub config: PasswordConfig,
    pub common_passwords: Vec<String>,
}

/// The character sequences of a list of strings.
pub open spec fn views_of(list: Seq<String>) -> Seq<Seq<char>> {
    list.map_values(|s: String| s@)
}

/// The built-in common passwords, in order.
pub open spec fn common_password_texts() -> Seq<Seq<char>> {
    seq![
        "password"@,
        "123456"@,
        "123456789"@,
        "12345678"@,
        "12345"@,
        "1234567"@,
        "password123"@,
        "admin"@,
        "administrator"@,
        "welcome"@,
        "login"@,
        "passw0rd"@,
        "qwerty"@,
        "abc123"@,
        "letmein"@,
        "monkey"@,
        "1234567890"@,
        "dragon"@,
        "sunshine"@,
        "princess"@,
        "azerty"@,
        "trustno1"@,
        "000000"@,
    ]
}

/// The built-in list of common passwords.
fn common_password_list() -> (v: Vec<String>)
    ensures
        views_of(v@) == common_password_texts(),
{
    let mut v: Vec<String> = Vec::new();
    v.push(String::from_str("password"));
    v.push(String::from_str("123456"));
    v.push(String::from_str("123456789"));
    v.push(String::from_str("12345678"));
    v.push(String::from_str("12345"));
    v.push(String::from_str("1234567"));
    v.push(String::from_str("password123"));
    v.push(String::from_str("admin"));
    v.push(String::from_str("administrator"));
    v.push(String::from_str("welcome"));
    v.push(String::from_str("login"));
    v.push(String::from_str("passw0rd"));
    v.push(String::from_str("qwerty"));
    v.push(String::from_str("abc123"));
    v.push(String::from_str("letmein"));
    v.push(String::from_str("monkey"));
    v.push(String::from_str("1234567890"));
    v.push(String::from_str("dragon"));
    v.push(String::from_str("sunshine"));
    v.push(String::from_str("princess"));
    v.push(String::from_str("azerty"));
    v.push(String::from_str("trustno1"));
    v.push(String::from_str("000000"));
    assert(views_of(v@) =~= common_password_texts());
    v
}

impl PasswordService {
    /// A service with the default configuration.
    pub fn new() -> (s: Self)
        ensures
            s.config == default_password_config(),
            views_of(s.common_passwords@) == common_password_texts(),
    {
        Self::with_config(PasswordConfig::default())
    }

    /// A service with the given configuration and the built-in list of common passwords.
    pub fn with_config(config: PasswordConfig) -> (s: Self)
        ensures
            s.config == config,
            views_of(s.common_passwords@) == common_password_texts(),
    {
        PasswordService { config, common_passwords: common_password_list() }
    }

    #[verifier::loop_isolation(false)]
    /// Checks a password against the configured rules, in order: length in UTF-8 bytes,
    /// an upper-case letter, a lower-case letter, a digit, a special character, printable
    /// ASCII only, and no common password inside it (case-insensitively).
    pub fn validate_password_strength(&self, password: &str) -> (r: Result<(), PasswordError>)
        ensures
            match r {
                Ok(()) => first_violation(
                    self.config,
                    views_of(self.common_passwords@),
                    password@,
                    password.len() as nat,
                ).is_none(),
                Err(e) => first_violation(
                    self.config,
                    views_of(self.common_passwords@),
                    password@,
                    password.len() as nat,
                ) == Some(e),
            },
            (forall|k: int| 0 <= k < password@.len() ==> is_ascii_char(#[trigger] password@[k])) ==> (has_upper(
                password@,
            ) == has_ascii_upper(password@) && has_lower(password@) == has_ascii_lower(password@)),
    {
        let cfg = self.config;
        let ghost common = views_of(self.common_passwords@);
        let s = chars_of(password);
        let n = s.len();
        let mut up = false;
        let mut low = false;
        let mut dig = false;
        let mut spe = false;
        let mut printable = true;
        let mut i: usize = 0;
        while i < n
            invariant
                n == s@.len(),
                i <= n,
                up == exists|k: int| 0 <= k < i && unicode_is_uppercase(#[trigger] s@[k]),
                low == exists|k: int| 0 <= k < i && unicode_is_lowercase(#[trigger] s@[k]),
                dig == exists|k: int| 0 <= k < i && is_ascii_digit(#[trigger] s@[k]),
                spe == exists|k: int| 0 <= k < i && is_special_char(#[trigger] s@[k]),
                printable == forall|k: int|
                    0 <= k < i ==> is_ascii_char(#[trigger] s@[k]) && !is_ascii_control(s@[k]),
                forall|k: int|
                    0 <= k < i && is_ascii_char(#[trigger] s@[k]) ==> (unicode_is_uppercase(s@[k]) == is_ascii_upper(
                        s@[k],
                    ) && unicode_is_lowercase(s@[k]) == is_ascii_lower(s@[k])),
            decreases n - i,
        {
            let c = s[i];
            if std_is_uppercase(c) {
                up = true;
            }
            if std_is_lowercase(c) {
                low = true;
            }
            if char_is_ascii_digit(c) {
                dig = true;
            }
            if char_is_special(c) {
                spe = true;
            }
            let code = char_code(c);
            if !(code < 128 && !(code < 32 || code == 127)) {
                printable = false;
            }
            i = i + 1;
        }
        assert(s@ == password@);
        proof {
            if forall|k: int| 0 <= k < password@.len() ==> is_ascii_char(#[trigger] password@[k]) {
                if has_upper(password@) {
                    let k = choose|k: int| 0 <= k < password@.len() && unicode_is_uppercase(#[trigger] password@[k]);
                    assert(is_ascii_char(password@[k]));
                }
                if has_ascii_upper(password@) {
                    let k = choose|k: int| 0 <= k < password@.len() && is_ascii_upper(#[trigger] password@[k]);
                    assert(is_ascii_char(password@[k]));
                }
                if has_lower(password@) {
                    let k = choose|k: int| 0 <= k < password@.len() && unicode_is_lowercase(#[trigger] password@[k]);
                    assert(is_ascii_char(password@[k]));
                }
                if has_ascii_lower(password@) {
                    let k = choose|k: int| 0 <= k < password@.len() && is_ascii_lower(#[trigger] password@[k]);
                    assert(is_ascii_char(password@[k]));
                }
            }
        }
        if password.len() < cfg.min_length {
            return Err(PasswordError::TooShort);
        }
        if cfg.require_uppercase && !up {
            return Err(PasswordError::NoUppercase);
        }
        if cfg.require_lowercase && !low {
            return Err(PasswordError::NoLowercase);
        }
        if cfg.require_digit && !dig {
            return Err(PasswordError::NoDigit);
        }
        if cfg.require_special_char && !spe {
            return Err(PasswordError::NoSpecialChar);
        }
        if !printable {
            return Err(PasswordError::InvalidCharacters);
        }
        if cfg.check_common_passwords {
            let mut k: usize = 0;
            while k < self.common_passwords.len()
                invariant
                    k <= self.common_passwords.len(),
                    common == views_of(self.common_passwords@),
                    forall|m: int| 0 <= m < k ==> !contains_lower(s@, #[trigger] common[m]),
                decreases self.common_passwords.len() - k,
            {
                let pat = chars_of(self.common_passwords[k].as_str());
                assert(common[k as int] == pat@);
                if find_lower(&s, &pat) {
                    assert(contains_lower(s@, common[k as int]));
                    return Err(PasswordError::TooCommon);
                }
                k = k + 1;
            }
        }
        Ok(())
    }

    /// Size of the character set that the password draws on (see `charset_size_of`).
    pub fn charset_size(&self, password: &str) -> (k: u32)
        ensures
            k == charset_size_of(password@),
    {
        let s = chars_of(password);
        let n = s.len();
        let mut low = false;
        let mut up = false;
        let mut dig = false;
        let mut spe = false;
        let mut i: usize = 0;
        while i < n
            invariant
                n == s@.len(),
                i <= n,
                low == exists|k: int| 0 <= k < i && is_ascii_lower(#[trigger] s@[k]),
                up == exists|k: int| 0 <= k < i && is_ascii_upper(#[trigger] s@[k]),
                dig == exists|k: int| 0 <= k < i && is_ascii_digit(#[trigger] s@[k]),
                spe == exists|k: int| 0 <= k < i && is_special_char(#[trigger] s@[k]),
            decreases n - i,
        {
            let c = s[i];
            if char_is_ascii_lower(c) {
                low = true;
            }
            if char_is_ascii_upper(c) {
                up = true;
            }
            if char_is_ascii_digit(c) {
                dig = true;
            }
            if char_is_special(c) {
                spe = true;
            }
            i = i + 1;
        }
        assert(s@ == password@);
        let mut k: u32 = 0;
        if low {
            k = k + 26;
        }
        if up {
            k = k + 26;
        }
        if dig {
            k = k + 10;
        }
        if spe {
            k = k + 23;
        }
        k
    }

    /// Strength level from the entropy estimate `bytes * log2(charset size)`:
    /// below 35 bits weak, below 60 fair, below 120 good, else strong.
    pub fn assess_strength(&self, password: &str) -> (st: PasswordStrength)
        ensures
            st == strength_of(charset_size_of(password@), password.len() as nat),
    {
        let k = self.charset_size(password);
        let len = password.len();
        if k == 0 {
            return PasswordStrength::Weak;
        }
        let cap: u128 = 0x100_0000_0000_0000_0000_0000_0000_0000;
        let ghost kk = k as nat;
        let mut p: u128 = 1;
        let mut i: usize = 0;
        while i < len && p < cap
            invariant
                cap == 0x100_0000_0000_0000_0000_0000_0000_0000,
                1 <= k <= 85,
                kk == k as nat,
                i <= len,
                pow_nat(kk, i as nat) < cap ==> p == pow_nat(kk, i as nat),
                pow_nat(kk, i as nat) >= cap ==> p >= cap,
                p >= 1,
                p < cap * 85,
            decreases len - i,
        {
            assert(pow_nat(kk, (i + 1) as nat) == kk * pow_nat(kk, i as nat));
            assert(p * (k as u128) < cap * 85) by (nonlinear_arith)
                requires
                    p < cap,
                    k <= 85,
            ;
            assert(cap * 85 < u128::MAX);
            let old_p = p;
            p = p * (k as u128);
            assert(p == kk * old_p && p >= 1) by (nonlinear_arith)
                requires
                    p == old_p * (k as u128),
                    kk == k as nat,
                    old_p >= 1,
                    k >= 1,
            ;
            assert(old_p == pow_nat(kk, i as nat));
            i = i + 1;
        }
        proof {
            lemma_pow2_values();
            if pow_nat(kk, i as nat) >= cap {
                lemma_pow_monotone(kk, i as nat, len as nat);
            }
        }
        if p < 0x8_0000_0000 {
            PasswordStrength::Weak
        } else if p < 0x1000_0000_0000_0000 {
            PasswordStrength::Fair
        } else if p < cap {
            PasswordStrength::Good
        } else {
            PasswordStrength::Strong
        }
    }
}

/// What `Argon2::default().hash_password(password, salt)` (Argon2id, version 19, default
/// cost) yields for the password's bytes and a Base64 salt: the PHC string of the hash,
/// or the text of the error.
pub uninterp spec fn argon2_phc(password: Seq<u8>, salt: Seq<char>) -> Result<Seq<char>, Seq<char>>;

/// What verifying a password's bytes against a PHC hash string with `Argon2::default()`
/// yields: whether it matches, or the text of the error (a hash string that does not
/// parse, or a failure other than a mismatch).
pub uninterp spec fn argon2_check(password: Seq<u8>, phc: Seq<char>) -> Result<bool, Seq<char>>;

/// A fresh random salt, `SaltString::generate(&mut OsRng)`, as its Base64 text.
/// Nothing is stated of it: it is random.
#[verifier::external_body]
fn random_salt() -> (r: String) {
    argon2::password_hash::SaltString::generate(&mut rand::rngs::OsRng).as_str().to_string()
}

/// `Argon2::default().hash_password` on the password's bytes with the given Base64 salt
/// (parsed by `SaltString::from_b64`), rendered as a PHC string; errors as their text.
/// Stated: the result is the named `argon2_phc` of the arguments.
/// Also stated: the hash verifies the password it was made from, since verifying
/// recomputes the hash with the parameters and salt that the PHC string carries
/// (`PasswordVerifier::verify_password`).
#[verifier::external_body]
fn argon2_hash(password: &str, salt: &str) -> (r: Result<String, String>)
    ensures
        match r {
            Ok(h) => argon2_phc(password.spec_bytes(), salt@) == Ok::<Seq<char>, Seq<char>>(h@) && argon2_check(
                password.spec_bytes(),
                h@,
            ) == Ok::<bool, Seq<char>>(true),
            Err(e) => argon2_phc(password.spec_bytes(), salt@) == Err::<Seq<char>, Seq<char>>(e@),
        },
{
    let salt = argon2::password_hash::SaltString::from_b64(salt).map_err(|e| e.to_string())?;
    argon2::Argon2::default()
        .hash_password(password.as_bytes(), &salt)
        .map(|h| h.to_string())
        .map_err(|e| e.to_string())
}

/// `PasswordHash::new(hash)` followed by `Argon2::default().verify_password`: `Ok(true)`
/// on a match, `Ok(false)` on `Error::Password`, other errors as their text.
/// Stated: the result is the named `argon2_check` of the arguments, and a hash string that
/// is empty or does not start with `$` is an error (`PasswordHash::parse` refuses it).
#[verifier::external_body]
fn argon2_verify(password: &str, hash: &str) -> (r: Result<bool, String>)
    ensures
        match r {
            Ok(b) => argon2_check(password.spec_bytes(), hash@) == Ok::<bool, Seq<char>>(b),
            Err(e) => argon2_check(password.spec_bytes(), hash@) == Err::<bool, Seq<char>>(e@),
        },
        hash@.len() == 0 || hash@[0] != '$' ==> r is Err,
{
    let parsed = argon2::password_hash::PasswordHash::new(hash).map_err(|e| e.to_string())?;
    match argon2::Argon2::default().verify_password(password.as_bytes(), &parsed) {
        Ok(()) => Ok(true),
        Err(argon2::password_hash::Error::Password) => Ok(false),
        Err(e) => Err(e.to_string()),
    }
}

/// A uniformly random index below `n`, `rand::thread_rng().gen_range(0..n)`.
/// Stated: it is below `n`; nothing more, it is random.
#[verifier::external_body]
fn random_below(n: usize) -> (r: usize)
    requires
        n > 0,
    ensures
        r < n,
{
    rand::thread_rng().gen_range(0..n)
}

/// One of the characters a generated password draws on.
pub open spec fn is_password_alphabet(c: char) -> bool {
    is_ascii_upper(c) || is_ascii_lower(c) || is_ascii_digit(c) || is_special_char(c)
}

/// How many character classes a configuration requires.
pub open spec fn required_classes(cfg: PasswordConfig) -> nat {
    (if cfg.require_uppercase { 1nat } else { 0nat }) + (if cfg.require_lowercase { 1nat } else { 0nat })
        + (if cfg.require_digit { 1nat } else { 0nat }) + (if cfg.require_special_char { 1nat } else { 0nat })
}

/// The length of a generated password: the requested length, raised to the configured
/// minimum and to the number of required classes.
pub open spec fn generated_length(cfg: PasswordConfig, length: nat) -> nat {
    let l = if length > cfg.min_length { length } else { cfg.min_length as nat };
    if l > required_classes(cfg) { l } else { required_classes(cfg) }
}

/// The 88 characters a generated password draws on: upper case, lower case, digits, specials.
fn password_alphabet() -> (v: Vec<char>)
    ensures
        v.len() == 88,
        forall|i: int| 0 <= i < v.len() ==> is_password_alphabet(#[trigger] v@[i]),
        forall|i: int| 0 <= i < 26 ==> is_ascii_upper(#[trigger] v@[i]),
        forall|i: int| 26 <= i < 52 ==> is_ascii_lower(#[trigger] v@[i]),
        forall|i: int| 52 <= i < 62 ==> is_ascii_digit(#[trigger] v@[i]),
        forall|i: int| 62 <= i < 88 ==> is_special_char(#[trigger] v@[i]),
{
    let v = chars_of("ABCDEFGHIJKLMNOPQRSTUVWXYZabcdefghijklmnopqrstuvwxyz0123456789!@#$%^&*()_+-=[]{}|;:,.<>?");
    proof {
        reveal_strlit("ABCDEFGHIJKLMNOPQRSTUVWXYZabcdefghijklmnopqrstuvwxyz0123456789!@#$%^&*()_+-=[]{}|;:,.<>?");
    }
    v
}

/// What `verify_password` answers on a password's bytes and a hash string: the check's
/// outcome, its error text carried as a `VerificationError`.
pub open spec fn verification_answer(password: Seq<u8>, hash: Seq<char>, r: Result<bool, PasswordError>) -> bool {
    match r {
        Ok(b) => argon2_check(password, hash) == Ok::<bool, Seq<char>>(b),
        Err(PasswordError::VerificationError(m)) => argon2_check(password, hash) == Err::<bool, Seq<char>>(m@),
        Err(_) => false,
    }
}

/// Round trip: verifying a password against a hash that hashing made from it answers
/// `Ok(true)`.
pub proof fn lemma_hash_verify_round_trip(password: Seq<u8>, hash: Seq<char>, r: Result<bool, PasswordError>)
    requires
        argon2_check(password, hash) == Ok::<bool, Seq<char>>(true),
        verification_answer(password, hash, r),
    ensures
        r == Ok::<bool, PasswordError>(true),
{
}

impl PasswordService {
    /// Hashes a password that passes `validate_password_strength`, with the given salt.
    pub fn hash_password_with_salt(&self, password: &str, salt: &str) -> (r: Result<String, PasswordError>)
        ensures
            first_violation(self.config, views_of(self.common_passwords@), password@, password.len() as nat)
                matches Some(e) ==> r == Err::<String, PasswordError>(e),
            first_violation(self.config, views_of(self.common_passwords@), password@, password.len() as nat)
                is None ==> match r {
                Ok(h) => argon2_phc(password.spec_bytes(), salt@) == Ok::<Seq<char>, Seq<char>>(h@),
                Err(PasswordError::HashingError(m)) => argon2_phc(password.spec_bytes(), salt@)
                    == Err::<Seq<char>, Seq<char>>(m@),
                Err(_) => false,
            },
            r matches Ok(h) ==> argon2_check(password.spec_bytes(), h@) == Ok::<bool, Seq<char>>(true),
    {
        match self.validate_password_strength(password) {
            Err(e) => return Err(e),
            Ok(()) => {},
        }
        match argon2_hash(password, salt) {
            Ok(h) => Ok(h),
            Err(m) => Err(PasswordError::HashingError(m)),
        }
    }

    /// Hashes a password that passes `validate_password_strength` with Argon2id and a
    /// fresh random salt.
    pub fn hash_password(&self, password: &str) -> (r: Result<String, PasswordError>)
        ensures
            first_violation(self.config, views_of(self.common_passwords@), password@, password.len() as nat)
                matches Some(e) ==> r == Err::<String, PasswordError>(e),
            first_violation(self.config, views_of(self.common_passwords@), password@, password.len() as nat)
                is None ==> match r {
                Ok(h) => exists|salt: Seq<char>|
                    argon2_phc(password.spec_bytes(), salt) == Ok::<Seq<char>, Seq<char>>(h@),
                Err(PasswordError::HashingError(m)) => exists|salt: Seq<char>|
                    argon2_phc(password.spec_bytes(), salt) == Err::<Seq<char>, Seq<char>>(m@),
                Err(_) => false,
            },
            r matches Ok(h) ==> argon2_check(password.spec_bytes(), h@) == Ok::<bool, Seq<char>>(true),
    {
        let salt = random_salt();
        self.hash_password_with_salt(password, salt.as_str())
    }

    /// Verifies a password against a PHC hash string: a hash that `hash_password` made from
    /// the password verifies it (`Ok(true)`); an empty hash, or one that does not start
    /// with `$`, is an error.
    pub fn verify_password(&self, password: &str, hash: &str) -> (r: Result<bool, PasswordError>)
        ensures
            verification_answer(password.spec_bytes(), hash@, r),
            hash@.len() == 0 || hash@[0] != '$' ==> r is Err,
    {
        match argon2_verify(password, hash) {
            Ok(b) => Ok(b),
            Err(m) => Err(PasswordError::VerificationError(m)),
        }
    }

    /// A random password of `max(length, min_length)` characters (more if the required
    /// classes outnumber that) drawn from upper case, lower case, digits and specials,
    /// with at least one character of each required class.
    pub fn generate_password(&self, length: usize) -> (r: String)
        ensures
            r@.len() == generated_length(self.config, length as nat),
            forall|i: int| 0 <= i < r@.len() ==> is_password_alphabet(#[trigger] r@[i]),
            self.config.require_uppercase ==> has_ascii_upper(r@),
            self.config.require_lowercase ==> has_ascii_lower(r@),
            self.config.require_digit ==> has_digit(r@),
            self.config.require_special_char ==> has_special(r@),
    {
        let cfg = self.config;
        let length = if length > cfg.min_length { length } else { cfg.min_length };
        let alphabet = password_alphabet();
        let mut chars: Vec<char> = Vec::new();
        if cfg.require_uppercase {
            let k = random_below(26);
            chars.push(alphabet[k]);
            assert(is_ascii_upper(chars@[0]));
        }
        if cfg.require_lowercase {
            let k = random_below(26);
            chars.push(alphabet[26 + k]);
            assert(is_ascii_lower(chars@[chars.len() - 1]));
        }
        if cfg.require_digit {
            let k = random_below(10);
            chars.push(alphabet[52 + k]);
            assert(is_ascii_digit(chars@[chars.len() - 1]));
        }
        if cfg.require_special_char {
            let k = random_below(26);
            chars.push(alphabet[62 + k]);
            assert(is_special_char(chars@[chars.len() - 1]));
        }
        assert(chars.len() == required_classes(cfg));
        assert(cfg.require_uppercase ==> has_ascii_upper(chars@)) by {
            if cfg.require_uppercase {
                assert(is_ascii_upper(chars@[0]));
            }
        }
        assert(cfg.require_lowercase ==> has_ascii_lower(chars@)) by {
            if cfg.require_lowercase {
                let j = if cfg.require_uppercase { 1int } else { 0int };
                assert(is_ascii_lower(chars@[j]));
            }
        }
        assert(cfg.require_digit ==> has_digit(chars@)) by {
            if cfg.require_digit {
                let j = (if cfg.require_uppercase { 1int } else { 0int }) + (if cfg.require_lowercase { 1int } else { 0int });
                assert(is_ascii_digit(chars@[j]));
            }
        }
        assert(cfg.require_special_char ==> has_special(chars@)) by {
            if cfg.require_special_char {
                let j = (chars.len() - 1) as int;
                assert(is_special_char(chars@[j]));
            }
        }
        while chars.len() < length
            invariant
                alphabet.len() == 88,
                forall|i: int| 0 <= i < alphabet.len() ==> is_password_alphabet(#[trigger] alphabet@[i]),
                forall|i: int| 0 <= i < chars.len() ==> is_password_alphabet(#[trigger] chars@[i]),
                chars.len() >= required_classes(cfg),
                chars.len() <= if length as nat > required_classes(cfg) { length as nat } else { required_classes(cfg) },
                cfg.require_uppercase ==> has_ascii_upper(chars@),
                cfg.require_lowercase ==> has_ascii_lower(chars@),
                cfg.require_digit ==> has_digit(chars@),
                cfg.require_special_char ==> has_special(chars@),
            decreases length - chars.len(),
        {
            let k = random_below(88);
            let ghost before = chars@;
            chars.push(alphabet[k]);
            assert(forall|i: int| 0 <= i < before.len() ==> chars@[i] == before[i]);
        }
        let n = chars.len();
        let mut i: usize = n;
        while i > 1
            invariant
                chars.len() == n,
                i <= n,
                forall|m: int| 0 <= m < chars.len() ==> is_password_alphabet(#[trigger] chars@[m]),
                cfg.require_uppercase ==> has_ascii_upper(chars@),
                cfg.require_lowercase ==> has_ascii_lower(chars@),
                cfg.require_digit ==> has_digit(chars@),
                cfg.require_special_char ==> has_special(chars@),
            decreases i,
        {
            i = i - 1;
            let j = random_below(i + 1);
            let ghost before = chars@;
            let a = chars[i];
            let b = chars[j];
            chars.set(i, b);
            chars.set(j, a);
            assert(chars@ =~= before.update(i as int, b).update(j as int, a));
            proof {
                lemma_swap_keeps_classes(before, i as int, j as int, chars@);
            }
        }
        string_from_chars(&chars)
    }
}

/// Swapping two positions keeps every character class that a sequence has.
proof fn lemma_swap_keeps_classes(before: Seq<char>, i: int, j: int, after: Seq<char>)
    requires
        0 <= i < before.len(),
        0 <= j < before.len(),
        after == before.update(i, before[j]).update(j, before[i]),
    ensures
        after.len() == before.len(),
        (forall|m: int| 0 <= m < before.len() ==> is_password_alphabet(#[trigger] before[m]))
            ==> (forall|m: int| 0 <= m < after.len() ==> is_password_alphabet(#[trigger] after[m])),
        has_ascii_upper(before) ==> has_ascii_upper(after),
        has_ascii_lower(before) ==> has_ascii_lower(after),
        has_digit(before) ==> has_digit(after),
        has_special(before) ==> has_special(after),
{
    if has_ascii_upper(before) {
        let m = choose|m: int| 0 <= m < before.len() && is_ascii_upper(#[trigger] before[m]);
        let n = if m == i { j } else if m == j { i } else { m };
        assert(after[n] == before[m]);
        assert(is_ascii_upper(after[n]));
    }
    if has_ascii_lower(before) {
        let m = choose|m: int| 0 <= m < before.len() && is_ascii_lower(#[trigger] before[m]);
        let n = if m == i { j } else if m == j { i } else { m };
        assert(after[n] == before[m]);
        assert(is_ascii_lower(after[n]));
    }
    if has_digit(before) {
        let m = choose|m: int| 0 <= m < before.len() && is_ascii_digit(#[trigger] before[m]);
        let n = if m == i { j } else if m == j { i } else { m };
        assert(after[n] == before[m]);
        assert(is_ascii_digit(after[n]));
    }
    if has_special(before) {
        let m = choose|m: int| 0 <= m < before.len() && is_special_char(#[trigger] before[m]);
        let n = if m == i { j } else if m == j { i } else { m };
        assert(after[n] == before[m]);
        assert(is_special_char(after[n]));
    }
    if forall|m: int| 0 <= m < before.len() ==> is_password_alphabet(#[trigger] before[m]) {
        assert forall|n: int| 0 <= n < after.len() implies is_password_alphabet(#[trigger] after[n]) by {
            if n == j {
                assert(after[n] == before[i]);
            } else if n == i {
                assert(after[n] == before[j]);
            } else {
                assert(after[n] == before[n]);
            }
        }
    }
}

} // verus!

//! Rate limiting in tiers (global, per client address, per user, per endpoint) over
//! sliding windows of request times, with a token bucket that lets a client exceed its
//! per-minute limit in bursts. Times are milliseconds; the bucket counts in units of
//! 1/60000 of a request, so that a limit of `n` requests per minute refills `n` units per
//! millisecond and every quantity stays an integer.
use vstd::prelude::*;
use crate::clock::now_millis;
use crate::cors::{char_views, comma_pieces, is_readable_text, readable_text, split_commas};
use crate::gateway::{find_header, header_value};
use crate::text::{
    chars_of, ends_with, starts_with, string_from_chars, trim, trim_chars, vec_ends_with, vec_eq, vec_starts_with,
};

verus! {

/// Limits per client address.
#[derive(Debug, Clone, Copy, PartialEq, Eq, Structural)]
pub struct IpLimits {
    pub requests_per_minute: u32,
    pub requests_per_hour: u32,
    pub concurrent_connections: u32,
}

/// Limits per signed-in user.
#[derive(Debug, Clone, Copy, PartialEq, Eq, Structural)]
pub struct UserLimits {
    pub authenticated_requests_per_minute: u32,
    pub authenticated_requests_per_hour: u32,
    pub admin_requests_per_minute: u32,
    pub admin_requests_per_hour: u32,
}

/// Limits and access rules of one endpoint (or, for a path ending in `/`, of every
/// endpoint under it).
#[derive(Debug, Clone, Copy, PartialEq, Eq, Structural)]
pub struct EndpointLimit {
    pub requests_per_minute: u32,
    pub requests_per_hour: u32,
    pub concurrent_requests: u32,
    pub require_auth: bool,
    pub admin_only: bool,
}

/// Limits over all requests.
#[derive(Debug, Clone, Copy, PartialEq, Eq, Structural)]
pub struct GlobalLimits {
    pub total_requests_per_second: u32,
    pub total_requests_per_minute: u32,
    pub max_concurrent_requests: u32,
}

/// Rate limiting settings. `window_size` is in seconds; `burst_multiplier` is in
/// hundredths (150 lets a burst reach one and a half times the per-second rate).
#[derive(Debug, Clone)]
pub struct RateLimitConfig {
    pub ip_limits: IpLimits,
    pub user_limits: UserLimits,
    pub endpoint_limits: Vec<(String, EndpointLimit)>,
    pub global_limits: GlobalLimits,
    pub window_size: u64,
    pub allow_burst: bool,
    pub burst_multiplier: u32,
}

/// Endpoint rules as texts and limits.
pub open spec fn rule_views(rules: Seq<(String, EndpointLimit)>) -> Seq<(Seq<char>, EndpointLimit)> {
    Seq::new(rules.len(), |i: int| (rules[i].0@, rules[i].1))
}

/// The position of the first rule for `path`.
pub open spec fn first_rule(v: Seq<(Seq<char>, EndpointLimit)>, path: Seq<char>) -> Option<int>
    decreases v.len(),
{
    if v.len() == 0 {
        None
    } else {
        match first_rule(v.drop_last(), path) {
            Some(i) => Some(i),
            None => if v.last().0 == path {
                Some(v.len() - 1)
            } else {
                None
            },
        }
    }
}

/// The rules with `path` governed by `limit`: its first rule replaced, or a rule added.
pub open spec fn with_rule(v: Seq<(Seq<char>, EndpointLimit)>, path: Seq<char>, limit: EndpointLimit) -> Seq<
    (Seq<char>, EndpointLimit),
> {
    match first_rule(v, path) {
        Some(i) => v.update(i, (path, limit)),
        None => v.push((path, limit)),
    }
}

/// An endpoint rule's limits.
pub open spec fn limit_of(per_minute: u32, per_hour: u32, concurrent: u32, auth: bool, admin: bool) -> EndpointLimit {
    EndpointLimit {
        requests_per_minute: per_minute,
        requests_per_hour: per_hour,
        concurrent_requests: concurrent,
        require_auth: auth,
        admin_only: admin,
    }
}

/// The default endpoint rules: login, registration, transactions, the administration
/// group and the health check.
pub open spec fn default_endpoint_rules() -> Seq<(Seq<char>, EndpointLimit)> {
    seq![
        ("/auth/login"@, limit_of(5, 20, 2, false, false)),
        ("/auth/register"@, limit_of(3, 10, 1, false, false)),
        ("/api/v1/transactions"@, limit_of(60, 1000, 10, true, false)),
        ("/api/v1/admin/"@, limit_of(30, 500, 5, true, true)),
        ("/api/v1/health"@, limit_of(120, 2000, 20, false, false)),
    ]
}

/// The first exact rule of the strings is the first rule of their texts.
pub proof fn lemma_exact_rule_views(rules: Seq<(String, EndpointLimit)>, path: Seq<char>)
    ensures
        exact_rule(rules, path) == first_rule(rule_views(rules), path),
    decreases rules.len(),
{
    if rules.len() > 0 {
        assert(rule_views(rules).drop_last() =~= rule_views(rules.drop_last()));
        lemma_exact_rule_views(rules.drop_last(), path);
    }
}

/// An endpoint rule.
fn endpoint_rule(path: &str, per_minute: u32, per_hour: u32, concurrent: u32, auth: bool, admin: bool) -> (r: (
    String,
    EndpointLimit,
))
    ensures
        r.0@ == path@,
        r.1 == (EndpointLimit {
            requests_per_minute: per_minute,
            requests_per_hour: per_hour,
            concurrent_requests: concurrent,
            require_auth: auth,
            admin_only: admin,
        }),
{
    (
        String::from_str(path),
        EndpointLimit {
            requests_per_minute: per_minute,
            requests_per_hour: per_hour,
            concurrent_requests: concurrent,
            require_auth: auth,
            admin_only: admin,
        },
    )
}

impl Default for RateLimitConfig {
    fn default() -> (c: Self)
        ensures
            c.ip_limits == (IpLimits { requests_per_minute: 120, requests_per_hour: 2000, concurrent_connections: 20 }),
            c.user_limits == (UserLimits {
                authenticated_requests_per_minute: 300,
                authenticated_requests_per_hour: 5000,
                admin_requests_per_minute: 600,
                admin_requests_per_hour: 10000,
            }),
            c.global_limits == (GlobalLimits {
                total_requests_per_second: 1000,
                total_requests_per_minute: 30000,
                max_concurrent_requests: 500,
            }),
            c.window_size == 60,
            c.allow_burst,
            c.burst_multiplier == 150,
            rule_views(c.endpoint_limits@) == default_endpoint_rules(),
    {
        let mut endpoint_limits: Vec<(String, EndpointLimit)> = Vec::new();
        endpoint_limits.push(endpoint_rule("/auth/login", 5, 20, 2, false, false));
        endpoint_limits.push(endpoint_rule("/auth/register", 3, 10, 1, false, false));
        endpoint_limits.push(endpoint_rule("/api/v1/transactions", 60, 1000, 10, true, false));
        endpoint_limits.push(endpoint_rule("/api/v1/admin/", 30, 500, 5, true, true));
        endpoint_limits.push(endpoint_rule("/api/v1/health", 120, 2000, 20, false, false));
        assert(rule_views(endpoint_limits@) =~= default_endpoint_rules());
        RateLimitConfig {
            ip_limits: IpLimits { requests_per_minute: 120, requests_per_hour: 2000, concurrent_connections: 20 },
            user_limits: UserLimits {
                authenticated_requests_per_minute: 300,
                authenticated_requests_per_hour: 5000,
                admin_requests_per_minute: 600,
                admin_requests_per_hour: 10000,
            },
            endpoint_limits,
            global_limits: GlobalLimits {
                total_requests_per_second: 1000,
                total_requests_per_minute: 30000,
                max_concurrent_requests: 500,
            },
            window_size: 60,
            allow_burst: true,
            burst_multiplier: 150,
        }
    }
}

/// The request record of one client, user, endpoint or of all requests: the times of
/// the requests kept, how many are in progress, the time of the last one, and the burst
/// tokens (in 1/60000 of a request).
#[derive(Debug)]
pub struct RateLimitEntry {
    pub requests: Vec<i64>,
    pub concurrent_requests: u32,
    pub last_request: i64,
    pub burst_allowance: u128,
}

/// An entry as plain values: request times, requests in progress, last request, tokens.
pub type EntryView = (Seq<i64>, u32, i64, u128);

pub open spec fn entry_view(e: RateLimitEntry) -> EntryView {
    (e.requests@, e.concurrent_requests, e.last_request, e.burst_allowance)
}

/// A new entry at `now`.
pub open spec fn fresh_entry(now: i64) -> EntryView {
    (Seq::empty(), 0, now, 0)
}

/// How many of the times are after `cutoff`.
pub open spec fn count_after(s: Seq<i64>, cutoff: int) -> nat
    decreases s.len(),
{
    if s.len() == 0 {
        0
    } else {
        count_after(s.drop_last(), cutoff) + if s.last() > cutoff {
            1nat
        } else {
            0nat
        }
    }
}

/// The times after `cutoff`, in order.
pub open spec fn kept_after(s: Seq<i64>, cutoff: int) -> Seq<i64>
    decreases s.len(),
{
    if s.len() == 0 {
        Seq::empty()
    } else if s.last() > cutoff {
        kept_after(s.drop_last(), cutoff).push(s.last())
    } else {
        kept_after(s.drop_last(), cutoff)
    }
}

/// Dropping the times up to a cutoff does not change how many are after a later cutoff.
pub proof fn lemma_count_after_kept(s: Seq<i64>, c1: int, c2: int)
    requires
        c1 <= c2,
    ensures
        count_after(kept_after(s, c1), c2) == count_after(s, c2),
    decreases s.len(),
{
    if s.len() > 0 {
        lemma_count_after_kept(s.drop_last(), c1, c2);
        if s.last() > c1 {
            assert(kept_after(s, c1).drop_last() =~= kept_after(s.drop_last(), c1));
        }
    }
}

/// The number of times after a cutoff is at most the number of times.
pub proof fn lemma_count_after_bound(s: Seq<i64>, c: int)
    ensures
        count_after(s, c) <= s.len(),
    decreases s.len(),
{
    if s.len() > 0 {
        lemma_count_after_bound(s.drop_last(), c);
    }
}

/// The entry with the times up to `cutoff` dropped.
pub open spec fn cleaned(e: EntryView, cutoff: int) -> EntryView {
    (kept_after(e.0, cutoff), e.1, e.2, e.3)
}

/// The tokens of an entry after refilling at `now` for a limit of `per_minute` requests
/// per minute: `per_minute` units per elapsed millisecond, capped at the burst size
/// (`per_minute * multiplier * 10` units).
pub open spec fn refilled(e: EntryView, per_minute: u32, multiplier: u32, now: i64) -> u128 {
    let elapsed: int = if now - e.2 > 0 {
        now - e.2
    } else {
        0
    };
    let cap: int = per_minute * multiplier * 10;
    let t: int = e.3 + elapsed * per_minute;
    (if t > cap {
        cap
    } else {
        t
    }) as u128
}

/// The units of one request.
pub const REQUEST_UNITS: u128 = 60000;

impl RateLimitEntry {
    /// A new entry at `now`.
    pub fn new_at(now: i64) -> (e: Self)
        ensures
            entry_view(e) == fresh_entry(now),
    {
        RateLimitEntry { requests: Vec::new(), concurrent_requests: 0, last_request: now, burst_allowance: 0 }
    }

    /// Records a request at `now` (the count in progress saturates at `u32::MAX`).
    pub fn add_request(&mut self, now: i64)
        ensures
            entry_view(*final(self)) == (
                old(self).requests@.push(now),
                if old(self).concurrent_requests < u32::MAX {
                    (old(self).concurrent_requests + 1) as u32
                } else {
                    u32::MAX
                },
                now,
                old(self).burst_allowance,
            ),
    {
        self.requests.push(now);
        self.last_request = now;
        if self.concurrent_requests < u32::MAX {
            self.concurrent_requests = self.concurrent_requests + 1;
        }
    }

    /// Marks one request in progress as finished.
    pub fn finish_request(&mut self)
        ensures
            entry_view(*final(self)) == (
                old(self).requests@,
                if old(self).concurrent_requests > 0 {
                    (old(self).concurrent_requests - 1) as u32
                } else {
                    0
                },
                old(self).last_request,
                old(self).burst_allowance,
            ),
    {
        if self.concurrent_requests > 0 {
            self.concurrent_requests = self.concurrent_requests - 1;
        }
    }

    /// Drops the request times up to `cutoff`.
    pub fn cleanup_old_requests(&mut self, cutoff: i128)
        ensures
            entry_view(*final(self)) == cleaned(entry_view(*old(self)), cutoff as int),
    {
        let mut kept: Vec<i64> = Vec::new();
        let mut i: usize = 0;
        while i < self.requests.len()
            invariant
                i <= self.requests@.len(),
                kept@ == kept_after(self.requests@.subrange(0, i as int), cutoff as int),
            decreases self.requests@.len() - i,
        {
            assert(self.requests@.subrange(0, i + 1).drop_last() =~= self.requests@.subrange(0, i as int));
            if self.requests[i] as i128 > cutoff {
                kept.push(self.requests[i]);
            }
            i = i + 1;
        }
        assert(self.requests@.subrange(0, self.requests@.len() as int) =~= self.requests@);
        self.requests = kept;
    }

    /// How many requests are after `cutoff`.
    pub fn request_count(&self, cutoff: i128) -> (n: usize)
        ensures
            n == count_after(self.requests@, cutoff as int),
    {
        let mut n: usize = 0;
        let mut i: usize = 0;
        while i < self.requests.len()
            invariant
                i <= self.requests@.len(),
                n == count_after(self.requests@.subrange(0, i as int), cutoff as int),
                n <= i,
            decreases self.requests@.len() - i,
        {
            assert(self.requests@.subrange(0, i + 1).drop_last() =~= self.requests@.subrange(0, i as int));
            if self.requests[i] as i128 > cutoff {
                n = n + 1;
            }
            i = i + 1;
        }
        assert(self.requests@.subrange(0, self.requests@.len() as int) =~= self.requests@);
        n
    }

    /// Refills the burst tokens at `now` for a limit of `per_minute` requests per minute.
    pub fn update_burst_allowance(&mut self, per_minute: u32, multiplier: u32, now: i64)
        ensures
            entry_view(*final(self)) == (
                old(self).requests@,
                old(self).concurrent_requests,
                old(self).last_request,
                refilled(entry_view(*old(self)), per_minute, multiplier, now),
            ),
    {
        let elapsed: u128 = if now > self.last_request {
            (now as i128 - self.last_request as i128) as u128
        } else {
            0
        };
        assert(elapsed * per_minute <= 0x1_0000_0000_0000_0000 * 0x1_0000_0000) by (nonlinear_arith)
            requires
                elapsed <= 0x1_0000_0000_0000_0000,
                per_minute < 0x1_0000_0000,
        ;
        assert(per_minute as u128 * multiplier as u128 <= 0x1_0000_0000 * 0x1_0000_0000) by (nonlinear_arith)
            requires
                per_minute < 0x1_0000_0000,
                multiplier < 0x1_0000_0000,
        ;
        let cap: u128 = per_minute as u128 * multiplier as u128 * 10;
        let add: u128 = elapsed * per_minute as u128;
        let t: u128 = if self.burst_allowance > cap {
            cap
        } else if add > cap - self.burst_allowance {
            cap
        } else {
            self.burst_allowance + add
        };
        self.burst_allowance = t;
    }

    /// Spends one request's tokens if there are enough.
    pub fn can_consume_burst(&mut self) -> (r: bool)
        ensures
            r == (old(self).burst_allowance >= REQUEST_UNITS),
            entry_view(*final(self)) == (
                old(self).requests@,
                old(self).concurrent_requests,
                old(self).last_request,
                if r {
                    (old(self).burst_allowance - REQUEST_UNITS) as u128
                } else {
                    old(self).burst_allowance
                },
            ),
    {
        if self.burst_allowance >= REQUEST_UNITS {
            self.burst_allowance = self.burst_allowance - REQUEST_UNITS;
            true
        } else {
            false
        }
    }
}


/// The entries of a map by key.
pub open spec fn map_of(keys: Seq<String>, es: Seq<RateLimitEntry>) -> Map<Seq<char>, EntryView>
    decreases keys.len(),
{
    if keys.len() == 0 || es.len() == 0 {
        Map::empty()
    } else {
        map_of(keys.drop_last(), es.drop_last()).insert(keys.last()@, entry_view(es.last()))
    }
}

/// No key occurs twice.
pub open spec fn keys_unique(keys: Seq<String>) -> bool {
    forall|i: int, j: int| 0 <= i < j < keys.len() ==> (#[trigger] keys[i])@ != (#[trigger] keys[j])@
}

/// The entry under the `i`-th key is the `i`-th entry.
proof fn lemma_map_of_index(keys: Seq<String>, es: Seq<RateLimitEntry>, i: int)
    requires
        keys.len() == es.len(),
        keys_unique(keys),
        0 <= i < keys.len(),
    ensures
        map_of(keys, es).dom().contains(keys[i]@),
        map_of(keys, es)[keys[i]@] == entry_view(es[i]),
    decreases keys.len(),
{
    if i < keys.len() - 1 {
        assert(keys.drop_last()[i] == keys[i]);
        assert(es.drop_last()[i] == es[i]);
        lemma_map_of_index(keys.drop_last(), es.drop_last(), i);
        assert(keys[i]@ != keys.last()@);
    }
}

/// A key that is not among the keys has no entry.
proof fn lemma_map_of_absent(keys: Seq<String>, es: Seq<RateLimitEntry>, k: Seq<char>)
    requires
        keys.len() == es.len(),
        forall|i: int| 0 <= i < keys.len() ==> (#[trigger] keys[i])@ != k,
    ensures
        !map_of(keys, es).dom().contains(k),
    decreases keys.len(),
{
    if keys.len() > 0 {
        assert forall|i: int| 0 <= i < keys.drop_last().len() implies (#[trigger] keys.drop_last()[i])@ != k by {
            assert(keys.drop_last()[i] == keys[i]);
        }
        lemma_map_of_absent(keys.drop_last(), es.drop_last(), k);
        assert(keys[keys.len() - 1]@ != k);
    }
}

/// Replacing the `i`-th entry replaces the entry under the `i`-th key.
proof fn lemma_map_of_update(keys: Seq<String>, es: Seq<RateLimitEntry>, i: int, e: RateLimitEntry)
    requires
        keys.len() == es.len(),
        keys_unique(keys),
        0 <= i < keys.len(),
    ensures
        map_of(keys, es.update(i, e)) == map_of(keys, es).insert(keys[i]@, entry_view(e)),
    decreases keys.len(),
{
    let n = keys.len();
    if i == n - 1 {
        assert(es.update(i, e).drop_last() =~= es.drop_last());
        assert(map_of(keys.drop_last(), es.drop_last()).insert(keys.last()@, entry_view(es.last())).insert(
            keys.last()@,
            entry_view(e),
        ) =~= map_of(keys.drop_last(), es.drop_last()).insert(keys.last()@, entry_view(e)));
    } else {
        assert(es.update(i, e).drop_last() =~= es.drop_last().update(i, e));
        assert forall|a: int, b: int| 0 <= a < b < keys.drop_last().len() implies (
        #[trigger] keys.drop_last()[a])@ != (#[trigger] keys.drop_last()[b])@ by {
            assert(keys.drop_last()[a] == keys[a]);
            assert(keys.drop_last()[b] == keys[b]);
        }
        lemma_map_of_update(keys.drop_last(), es.drop_last(), i, e);
        assert(keys.drop_last()[i] == keys[i]);
        assert(keys[i]@ != keys[n - 1]@);
        assert(map_of(keys, es.update(i, e)) =~= map_of(keys, es).insert(keys[i]@, entry_view(e)));
    }
}

/// Request records by key (client address, user or endpoint), each key once.
pub struct EntryMap {
    pub keys: Vec<String>,
    pub entries: Vec<RateLimitEntry>,
}

/// A copy of an entry.
fn copy_entry(e: &RateLimitEntry) -> (r: RateLimitEntry)
    ensures
        entry_view(r) == entry_view(*e),
{
    let mut requests: Vec<i64> = Vec::new();
    let mut i: usize = 0;
    while i < e.requests.len()
        invariant
            i <= e.requests@.len(),
            requests@ == e.requests@.subrange(0, i as int),
        decreases e.requests@.len() - i,
    {
        requests.push(e.requests[i]);
        i = i + 1;
        assert(requests@ =~= e.requests@.subrange(0, i as int));
    }
    assert(e.requests@.subrange(0, e.requests@.len() as int) =~= e.requests@);
    RateLimitEntry {
        requests,
        concurrent_requests: e.concurrent_requests,
        last_request: e.last_request,
        burst_allowance: e.burst_allowance,
    }
}

impl EntryMap {
    pub open spec fn wf(&self) -> bool {
        self.keys@.len() == self.entries@.len() && keys_unique(self.keys@)
    }

    /// The entries by key.
    pub open spec fn view(&self) -> Map<Seq<char>, EntryView> {
        map_of(self.keys@, self.entries@)
    }

    pub fn new() -> (m: Self)
        ensures
            m.wf(),
            m@ == Map::<Seq<char>, EntryView>::empty(),
    {
        EntryMap { keys: Vec::new(), entries: Vec::new() }
    }

    /// Whether `key` has an entry.
    pub fn contains_key(&self, key: &str) -> (r: bool)
        requires
            self.wf(),
        ensures
            r == self@.dom().contains(key@),
    {
        self.find(key).is_some()
    }

    /// The position of `key`, if it has an entry.
    fn find(&self, key: &str) -> (r: Option<usize>)
        requires
            self.wf(),
        ensures
            match r {
                Some(i) => i < self.keys@.len() && self.keys@[i as int]@ == key@ && self@.dom().contains(key@)
                    && self@[key@] == entry_view(self.entries@[i as int]),
                None => !self@.dom().contains(key@),
            },
    {
        let k = chars_of(key);
        let mut i: usize = 0;
        while i < self.keys.len()
            invariant
                self.wf(),
                i <= self.keys@.len(),
                k@ == key@,
                forall|j: int| 0 <= j < i ==> (#[trigger] self.keys@[j])@ != key@,
            decreases self.keys@.len() - i,
        {
            let c = chars_of(self.keys[i].as_str());
            if vec_eq(&c, &k) {
                proof {
                    lemma_map_of_index(self.keys@, self.entries@, i as int);
                }
                return Some(i);
            }
            i = i + 1;
        }
        proof {
            lemma_map_of_absent(self.keys@, self.entries@, key@);
        }
        None
    }

    /// The position of `key`, with a new entry at `now` added where it has none.
    fn index_or_insert(&mut self, key: &str, now: i64) -> (i: usize)
        requires
            old(self).wf(),
        ensures
            final(self).wf(),
            i < final(self).keys@.len(),
            final(self).keys@[i as int]@ == key@,
            final(self)@ == if old(self)@.dom().contains(key@) {
                old(self)@
            } else {
                old(self)@.insert(key@, fresh_entry(now))
            },
            final(self)@.dom().contains(key@),
            final(self)@[key@] == entry_view(final(self).entries@[i as int]),
    {
        match self.find(key) {
            Some(i) => i,
            None => {
                let ghost ks = self.keys@;
                self.keys.push(String::from_str(key));
                self.entries.push(RateLimitEntry::new_at(now));
                proof {
                    assert(self.keys@.drop_last() =~= ks);
                    assert(self.entries@.drop_last() =~= old(self).entries@);
                    assert(self@ == old(self)@.insert(key@, fresh_entry(now)));
                    assert forall|a: int, b: int| 0 <= a < b < self.keys@.len() implies (
                    #[trigger] self.keys@[a])@ != (#[trigger] self.keys@[b])@ by {
                        if b == ks.len() {
                            if ks[a]@ == key@ {
                                lemma_map_of_index(ks, old(self).entries@, a);
                            }
                        } else {
                            assert(ks[a] == self.keys@[a] && ks[b] == self.keys@[b]);
                        }
                    }
                    lemma_map_of_index(self.keys@, self.entries@, (self.keys@.len() - 1) as int);
                }
                self.keys.len() - 1
            },
        }
    }

    /// A copy of the `i`-th entry.
    fn entry_at(&self, i: usize) -> (e: RateLimitEntry)
        requires
            self.wf(),
            i < self.keys@.len(),
        ensures
            entry_view(e) == self@[self.keys@[i as int]@],
    {
        proof {
            lemma_map_of_index(self.keys@, self.entries@, i as int);
        }
        copy_entry(&self.entries[i])
    }

    /// Replaces the `i`-th entry.
    fn put(&mut self, i: usize, e: RateLimitEntry)
        requires
            old(self).wf(),
            i < old(self).keys@.len(),
        ensures
            final(self).wf(),
            final(self).keys@ == old(self).keys@,
            final(self)@ == old(self)@.insert(old(self).keys@[i as int]@, entry_view(e)),
    {
        proof {
            lemma_map_of_update(self.keys@, self.entries@, i as int, e);
        }
        self.entries.set(i, e);
    }
}


/// The entries whose last request is after `cutoff`.
pub open spec fn recent_only(m: Map<Seq<char>, EntryView>, cutoff: int) -> Map<Seq<char>, EntryView> {
    Map::new(|k: Seq<char>| m.dom().contains(k) && m[k].2 > cutoff, |k: Seq<char>| m[k])
}

impl EntryMap {
    /// Keeps only the entries whose last request is after `cutoff`.
    fn retain_recent(&mut self, cutoff: i128)
        requires
            old(self).wf(),
        ensures
            final(self).wf(),
            final(self)@ == recent_only(old(self)@, cutoff as int),
    {
        let mut keys: Vec<String> = Vec::new();
        let mut entries: Vec<RateLimitEntry> = Vec::new();
        let mut i: usize = 0;
        assert(map_of(self.keys@.subrange(0, 0), self.entries@.subrange(0, 0)) =~= Map::empty());
        assert(recent_only(Map::empty(), cutoff as int) =~= Map::empty());
        while i < self.keys.len()
            invariant
                self.wf(),
                i <= self.keys@.len(),
                keys@.len() == entries@.len(),
                keys_unique(keys@),
                forall|a: int| 0 <= a < keys@.len() ==> exists|b: int| 0 <= b < i && (#[trigger] self.keys@[b])@ == (#[trigger] keys@[a])@,
                map_of(keys@, entries@) == recent_only(
                    map_of(self.keys@.subrange(0, i as int), self.entries@.subrange(0, i as int)),
                    cutoff as int,
                ),
            decreases self.keys@.len() - i,
        {
            let ghost pk = self.keys@.subrange(0, i as int);
            let ghost pe = self.entries@.subrange(0, i as int);
            let ghost ki = self.keys@[i as int]@;
            let ghost before_k = keys@;
            let ghost before_e = entries@;
            proof {
                assert(self.keys@.subrange(0, i + 1).drop_last() =~= pk);
                assert(self.entries@.subrange(0, i + 1).drop_last() =~= pe);
                assert forall|j: int| 0 <= j < pk.len() implies (#[trigger] pk[j])@ != ki by {
                    assert(pk[j] == self.keys@[j]);
                }
                lemma_map_of_absent(pk, pe, ki);
                assert forall|a: int| 0 <= a < before_k.len() implies (#[trigger] before_k[a])@ != ki by {
                    let b = choose|b: int| 0 <= b < i && (#[trigger] self.keys@[b])@ == before_k[a]@;
                }
            }
            if self.entries[i].last_request as i128 > cutoff {
                keys.push(String::from_str(self.keys[i].as_str()));
                entries.push(copy_entry(&self.entries[i]));
                proof {
                    assert(keys@.drop_last() =~= before_k);
                    assert(entries@.drop_last() =~= before_e);
                    assert forall|a: int, b: int| 0 <= a < b < keys@.len() implies (#[trigger] keys@[a])@ != (
                    #[trigger] keys@[b])@ by {
                        if b == before_k.len() {
                            assert(keys@[a] == before_k[a]);
                        } else {
                            assert(keys@[a] == before_k[a] && keys@[b] == before_k[b]);
                        }
                    }
                    assert forall|a: int| 0 <= a < keys@.len() implies exists|b: int|
                        0 <= b < i + 1 && (#[trigger] self.keys@[b])@ == (#[trigger] keys@[a])@ by {
                        if a == before_k.len() {
                            assert(self.keys@[i as int]@ == keys@[a]@);
                        } else {
                            assert(keys@[a] == before_k[a]);
                        }
                    }
                }
            } else {
                proof {
                    assert forall|a: int| 0 <= a < keys@.len() implies exists|b: int|
                        0 <= b < i + 1 && (#[trigger] self.keys@[b])@ == (#[trigger] keys@[a])@ by {
                        let b = choose|b: int| 0 <= b < i && (#[trigger] self.keys@[b])@ == keys@[a]@;
                    }
                }
            }
            proof {
                let m = map_of(pk, pe);
                let m1 = map_of(self.keys@.subrange(0, i + 1), self.entries@.subrange(0, i + 1));
                assert(m1 == m.insert(ki, entry_view(self.entries@[i as int])));
                assert(map_of(keys@, entries@) =~= recent_only(m1, cutoff as int));
            }
            i = i + 1;
        }
        assert(self.keys@.subrange(0, self.keys@.len() as int) =~= self.keys@);
        assert(self.entries@.subrange(0, self.entries@.len() as int) =~= self.entries@);
        self.keys = keys;
        self.entries = entries;
    }
}


/// The window a refused limit counts over.
#[derive(Debug, Clone, Copy, PartialEq, Eq, Structural)]
pub enum LimitWindow {
    Second,
    Minute,
    Hour,
}

impl LimitWindow {
    /// The window's name.
    pub fn name(&self) -> (s: &'static str)
        ensures
            s@ == match *self {
                LimitWindow::Second => "second"@,
                LimitWindow::Minute => "minute"@,
                LimitWindow::Hour => "hour"@,
            },
    {
        match self {
            LimitWindow::Second => "second",
            LimitWindow::Minute => "minute",
            LimitWindow::Hour => "hour",
        }
    }
}

/// Why a request is refused; the limit is the one exceeded, the subject the client
/// address, user or endpoint concerned.
#[derive(Debug, Clone)]
pub enum RateLimitError {
    GlobalLimitExceeded { limit: u32, window: LimitWindow },
    IpLimitExceeded { ip: String, limit: u32, window: LimitWindow },
    UserLimitExceeded { user_id: String, limit: u32, window: LimitWindow },
    EndpointLimitExceeded { endpoint: String, limit: u32, window: LimitWindow },
    ConcurrentLimitExceeded { limit: u32 },
    AuthenticationRequired,
    AdminRequired,
}

/// A refusal without its subject.
#[derive(Debug, Clone, Copy, PartialEq, Eq, Structural)]
pub enum Refusal {
    Global(u32, LimitWindow),
    Ip(u32, LimitWindow),
    User(u32, LimitWindow),
    Endpoint(u32, LimitWindow),
    Concurrent(u32),
    AuthenticationRequired,
    AdminRequired,
}

/// An error is the refusal `f`, about the given subjects.
pub open spec fn is_refusal(e: RateLimitError, f: Refusal, ip: Seq<char>, user: Seq<char>, endpoint: Seq<char>) -> bool {
    match f {
        Refusal::Global(l, w) => e == RateLimitError::GlobalLimitExceeded { limit: l, window: w },
        Refusal::Ip(l, w) => e matches RateLimitError::IpLimitExceeded { ip: x, limit, window } && x@ == ip && limit
            == l && window == w,
        Refusal::User(l, w) => e matches RateLimitError::UserLimitExceeded { user_id: x, limit, window } && x@
            == user && limit == l && window == w,
        Refusal::Endpoint(l, w) => e matches RateLimitError::EndpointLimitExceeded { endpoint: x, limit, window }
            && x@ == endpoint && limit == l && window == w,
        Refusal::Concurrent(l) => e == RateLimitError::ConcurrentLimitExceeded { limit: l },
        Refusal::AuthenticationRequired => e == RateLimitError::AuthenticationRequired,
        Refusal::AdminRequired => e == RateLimitError::AdminRequired,
    }
}

/// The outcome of a check of one tier: the refusal if any, and the tier's entry after.
pub type TierStep = (Option<Refusal>, EntryView);

/// The cutoff of a window of `ms` milliseconds ending at `now`.
pub open spec fn ago(now: i64, ms: int) -> int {
    now - ms
}

/// The global check: per minute, per second, then requests in progress; the record is
/// cleaned of requests older than a minute.
pub open spec fn global_step(g: GlobalLimits, e: EntryView, now: i64) -> TierStep {
    let after = cleaned(e, ago(now, 60000));
    if count_after(e.0, ago(now, 60000)) >= g.total_requests_per_minute {
        (Some(Refusal::Global(g.total_requests_per_minute, LimitWindow::Minute)), after)
    } else if count_after(e.0, ago(now, 1000)) >= g.total_requests_per_second {
        (Some(Refusal::Global(g.total_requests_per_second, LimitWindow::Second)), after)
    } else if e.1 >= g.max_concurrent_requests {
        (Some(Refusal::Concurrent(g.max_concurrent_requests)), after)
    } else {
        (None, after)
    }
}

/// The check of a client address: a client at its per-minute limit passes only with
/// burst tokens to spend (where bursts are allowed); then the per-hour limit and the
/// connections in progress. The record is cleaned of requests older than an hour.
pub open spec fn ip_step(c: RateLimitConfig, e: EntryView, now: i64) -> TierStep {
    let l = c.ip_limits;
    let cl = cleaned(e, ago(now, 3600000));
    let tokens = refilled(cl, l.requests_per_minute, c.burst_multiplier, now);
    if count_after(e.0, ago(now, 60000)) >= l.requests_per_minute && !c.allow_burst {
        (Some(Refusal::Ip(l.requests_per_minute, LimitWindow::Minute)), cl)
    } else if count_after(e.0, ago(now, 60000)) >= l.requests_per_minute && tokens < REQUEST_UNITS {
        (Some(Refusal::Ip(l.requests_per_minute, LimitWindow::Minute)), (cl.0, cl.1, cl.2, tokens))
    } else {
        let after = if count_after(e.0, ago(now, 60000)) >= l.requests_per_minute {
            (cl.0, cl.1, cl.2, (tokens - REQUEST_UNITS) as u128)
        } else {
            cl
        };
        if count_after(e.0, ago(now, 3600000)) >= l.requests_per_hour {
            (Some(Refusal::Ip(l.requests_per_hour, LimitWindow::Hour)), after)
        } else if e.1 >= l.concurrent_connections {
            (Some(Refusal::Concurrent(l.concurrent_connections)), after)
        } else {
            (None, after)
        }
    }
}

/// The check of a user against the administrator or the ordinary limits, per minute then
/// per hour; the record is cleaned of requests older than an hour.
pub open spec fn user_step(u: UserLimits, is_admin: bool, e: EntryView, now: i64) -> TierStep {
    let per_minute = if is_admin {
        u.admin_requests_per_minute
    } else {
        u.authenticated_requests_per_minute
    };
    let per_hour = if is_admin {
        u.admin_requests_per_hour
    } else {
        u.authenticated_requests_per_hour
    };
    let after = cleaned(e, ago(now, 3600000));
    if count_after(e.0, ago(now, 60000)) >= per_minute {
        (Some(Refusal::User(per_minute, LimitWindow::Minute)), after)
    } else if count_after(e.0, ago(now, 3600000)) >= per_hour {
        (Some(Refusal::User(per_hour, LimitWindow::Hour)), after)
    } else {
        (None, after)
    }
}

/// A user whose record holds its per-hour limit of requests within the last hour (the
/// administrator limit for an administrator) is refused as a user, whatever its count in
/// the last minute; where it is under its per-minute limit the refusal names the hour.
pub proof fn lemma_user_hour_limit_enforced(u: UserLimits, is_admin: bool, e: EntryView, now: i64)
    requires
        count_after(e.0, now - 3600000) >= if is_admin {
            u.admin_requests_per_hour
        } else {
            u.authenticated_requests_per_hour
        },
    ensures
        user_step(u, is_admin, e, now).0 matches Some(Refusal::User(_, _)),
        count_after(e.0, now - 60000) < (if is_admin {
            u.admin_requests_per_minute
        } else {
            u.authenticated_requests_per_minute
        }) ==> user_step(u, is_admin, e, now).0 == Some(Refusal::User(
            if is_admin {
                u.admin_requests_per_hour
            } else {
                u.authenticated_requests_per_hour
            },
            LimitWindow::Hour,
        )),
{
}

/// A user whose record holds its per-minute limit of requests within the last minute is
/// refused for the minute.
pub proof fn lemma_user_minute_limit_enforced(u: UserLimits, is_admin: bool, e: EntryView, now: i64)
    requires
        count_after(e.0, now - 60000) >= if is_admin {
            u.admin_requests_per_minute
        } else {
            u.authenticated_requests_per_minute
        },
    ensures
        user_step(u, is_admin, e, now).0 == Some(Refusal::User(
            if is_admin {
                u.admin_requests_per_minute
            } else {
                u.authenticated_requests_per_minute
            },
            LimitWindow::Minute,
        )),
{
}

/// The check of an endpoint under its rule, once the access rules passed: per minute,
/// per hour, then requests in progress; the record is cleaned of requests older than an
/// hour.
pub open spec fn endpoint_step(r: EndpointLimit, e: EntryView, now: i64) -> TierStep {
    let after = cleaned(e, ago(now, 3600000));
    if count_after(e.0, ago(now, 60000)) >= r.requests_per_minute {
        (Some(Refusal::Endpoint(r.requests_per_minute, LimitWindow::Minute)), after)
    } else if count_after(e.0, ago(now, 3600000)) >= r.requests_per_hour {
        (Some(Refusal::Endpoint(r.requests_per_hour, LimitWindow::Hour)), after)
    } else if e.1 >= r.concurrent_requests {
        (Some(Refusal::Concurrent(r.concurrent_requests)), after)
    } else {
        (None, after)
    }
}

/// The access rules of an endpoint rule: authentication, then administrator rights.
pub open spec fn access_refusal(r: EndpointLimit, authenticated: bool, is_admin: bool) -> Option<Refusal> {
    if r.require_auth && !authenticated {
        Some(Refusal::AuthenticationRequired)
    } else if r.admin_only && !is_admin {
        Some(Refusal::AdminRequired)
    } else {
        None
    }
}

/// The index of the first rule for exactly `endpoint`.
pub open spec fn exact_rule(rules: Seq<(String, EndpointLimit)>, endpoint: Seq<char>) -> Option<int>
    decreases rules.len(),
{
    if rules.len() == 0 {
        None
    } else {
        match exact_rule(rules.drop_last(), endpoint) {
            Some(i) => Some(i),
            None => if rules.last().0@ == endpoint {
                Some(rules.len() - 1)
            } else {
                None
            },
        }
    }
}

/// The index of the first rule for a path ending in `/` under which `endpoint` lies.
pub open spec fn prefix_rule(rules: Seq<(String, EndpointLimit)>, endpoint: Seq<char>) -> Option<int>
    decreases rules.len(),
{
    if rules.len() == 0 {
        None
    } else {
        match prefix_rule(rules.drop_last(), endpoint) {
            Some(i) => Some(i),
            None => if ends_with(rules.last().0@, "/"@) && starts_with(endpoint, rules.last().0@) {
                Some(rules.len() - 1)
            } else {
                None
            },
        }
    }
}

/// The rule of an endpoint: its own rule, else the first group rule it falls under.
pub open spec fn rule_for(rules: Seq<(String, EndpointLimit)>, endpoint: Seq<char>) -> Option<EndpointLimit> {
    match exact_rule(rules, endpoint) {
        Some(i) => Some(rules[i].1),
        None => match prefix_rule(rules, endpoint) {
            Some(i) => Some(rules[i].1),
            None => None,
        },
    }
}

/// The entry of `key` in `m`, or a new one at `now`.
pub open spec fn entry_or_fresh(m: Map<Seq<char>, EntryView>, key: Seq<char>, now: i64) -> EntryView {
    if m.dom().contains(key) {
        m[key]
    } else {
        fresh_entry(now)
    }
}

/// An entry with a request recorded at `now`.
pub open spec fn with_request(e: EntryView, now: i64) -> EntryView {
    (e.0.push(now), if e.1 < u32::MAX {
        (e.1 + 1) as u32
    } else {
        u32::MAX
    }, now, e.3)
}

/// An entry with one request in progress finished.
pub open spec fn with_finish(e: EntryView) -> EntryView {
    (e.0, if e.1 > 0 {
        (e.1 - 1) as u32
    } else {
        0
    }, e.2, e.3)
}


/// The global check on the global record.
fn check_global_limits(g: &GlobalLimits, e: &mut RateLimitEntry, now: i64) -> (r: Option<Refusal>)
    ensures
        (r, entry_view(*final(e))) == global_step(*g, entry_view(*old(e)), now),
{
    let ghost old_reqs = e.requests@;
    let minute: i128 = now as i128 - 60000;
    let second: i128 = now as i128 - 1000;
    e.cleanup_old_requests(minute);
    proof {
        lemma_count_after_kept(old_reqs, minute as int, minute as int);
        lemma_count_after_kept(old_reqs, minute as int, second as int);
    }
    let per_minute = e.request_count(minute);
    if per_minute >= g.total_requests_per_minute as usize {
        return Some(Refusal::Global(g.total_requests_per_minute, LimitWindow::Minute));
    }
    let per_second = e.request_count(second);
    if per_second >= g.total_requests_per_second as usize {
        return Some(Refusal::Global(g.total_requests_per_second, LimitWindow::Second));
    }
    if e.concurrent_requests >= g.max_concurrent_requests {
        return Some(Refusal::Concurrent(g.max_concurrent_requests));
    }
    None
}

/// The check of a client address on its record.
fn check_ip(c: &RateLimitConfig, e: &mut RateLimitEntry, now: i64) -> (r: Option<Refusal>)
    ensures
        (r, entry_view(*final(e))) == ip_step(*c, entry_view(*old(e)), now),
{
    let ghost old_reqs = e.requests@;
    let minute: i128 = now as i128 - 60000;
    let hour: i128 = now as i128 - 3600000;
    let l = c.ip_limits;
    e.cleanup_old_requests(hour);
    proof {
        lemma_count_after_kept(old_reqs, hour as int, minute as int);
        lemma_count_after_kept(old_reqs, hour as int, hour as int);
    }
    let per_minute = e.request_count(minute);
    if per_minute >= l.requests_per_minute as usize {
        if c.allow_burst {
            e.update_burst_allowance(l.requests_per_minute, c.burst_multiplier, now);
            if !e.can_consume_burst() {
                return Some(Refusal::Ip(l.requests_per_minute, LimitWindow::Minute));
            }
        } else {
            return Some(Refusal::Ip(l.requests_per_minute, LimitWindow::Minute));
        }
    }
    let per_hour = e.request_count(hour);
    if per_hour >= l.requests_per_hour as usize {
        return Some(Refusal::Ip(l.requests_per_hour, LimitWindow::Hour));
    }
    if e.concurrent_requests >= l.concurrent_connections {
        return Some(Refusal::Concurrent(l.concurrent_connections));
    }
    None
}

/// The check of a user on its record.
fn check_user(u: &UserLimits, is_admin: bool, e: &mut RateLimitEntry, now: i64) -> (r: Option<Refusal>)
    ensures
        (r, entry_view(*final(e))) == user_step(*u, is_admin, entry_view(*old(e)), now),
{
    let ghost old_reqs = e.requests@;
    let minute: i128 = now as i128 - 60000;
    let hour: i128 = now as i128 - 3600000;
    e.cleanup_old_requests(hour);
    proof {
        lemma_count_after_kept(old_reqs, hour as int, minute as int);
        lemma_count_after_kept(old_reqs, hour as int, hour as int);
    }
    let (per_minute_limit, per_hour_limit) = if is_admin {
        (u.admin_requests_per_minute, u.admin_requests_per_hour)
    } else {
        (u.authenticated_requests_per_minute, u.authenticated_requests_per_hour)
    };
    let per_minute = e.request_count(minute);
    if per_minute >= per_minute_limit as usize {
        return Some(Refusal::User(per_minute_limit, LimitWindow::Minute));
    }
    let per_hour = e.request_count(hour);
    if per_hour >= per_hour_limit as usize {
        return Some(Refusal::User(per_hour_limit, LimitWindow::Hour));
    }
    None
}

/// The check of an endpoint on its record, under its rule.
fn check_endpoint(rule: &EndpointLimit, e: &mut RateLimitEntry, now: i64) -> (r: Option<Refusal>)
    ensures
        (r, entry_view(*final(e))) == endpoint_step(*rule, entry_view(*old(e)), now),
{
    let ghost old_reqs = e.requests@;
    let minute: i128 = now as i128 - 60000;
    let hour: i128 = now as i128 - 3600000;
    e.cleanup_old_requests(hour);
    proof {
        lemma_count_after_kept(old_reqs, hour as int, minute as int);
        lemma_count_after_kept(old_reqs, hour as int, hour as int);
    }
    let per_minute = e.request_count(minute);
    if per_minute >= rule.requests_per_minute as usize {
        return Some(Refusal::Endpoint(rule.requests_per_minute, LimitWindow::Minute));
    }
    let per_hour = e.request_count(hour);
    if per_hour >= rule.requests_per_hour as usize {
        return Some(Refusal::Endpoint(rule.requests_per_hour, LimitWindow::Hour));
    }
    if e.concurrent_requests >= rule.concurrent_requests {
        return Some(Refusal::Concurrent(rule.concurrent_requests));
    }
    None
}

/// The rule that applies to `endpoint`: its own rule, else the first group rule (a path
/// ending in `/`) it falls under.
pub fn find_endpoint_config(rules: &Vec<(String, EndpointLimit)>, endpoint: &str) -> (r: Option<EndpointLimit>)
    ensures
        r == rule_for(rules@, endpoint@),
{
    let ep = chars_of(endpoint);
    let mut i: usize = 0;
    while i < rules.len()
        invariant
            i <= rules@.len(),
            ep@ == endpoint@,
            exact_rule(rules@.subrange(0, i as int), endpoint@) is None,
        decreases rules@.len() - i,
    {
        assert(rules@.subrange(0, i + 1).drop_last() =~= rules@.subrange(0, i as int));
        let k = chars_of(rules[i].0.as_str());
        if vec_eq(&k, &ep) {
            proof {
                lemma_first_rule_exact(rules@, endpoint@, i as int);
            }
            return Some(rules[i].1);
        }
        i = i + 1;
    }
    assert(rules@.subrange(0, rules@.len() as int) =~= rules@);
    let slash = chars_of("/");
    let mut j: usize = 0;
    while j < rules.len()
        invariant
            j <= rules@.len(),
            ep@ == endpoint@,
            slash@ == "/"@,
            exact_rule(rules@, endpoint@) is None,
            prefix_rule(rules@.subrange(0, j as int), endpoint@) is None,
        decreases rules@.len() - j,
    {
        assert(rules@.subrange(0, j + 1).drop_last() =~= rules@.subrange(0, j as int));
        let k = chars_of(rules[j].0.as_str());
        if vec_ends_with(&k, &slash) && vec_starts_with(&ep, &k) {
            proof {
                lemma_first_rule_prefix(rules@, endpoint@, j as int);
            }
            return Some(rules[j].1);
        }
        j = j + 1;
    }
    assert(rules@.subrange(0, rules@.len() as int) =~= rules@);
    None
}

/// A rule for exactly the endpoint after none in a prefix of the rules is the first.
proof fn lemma_first_rule_exact(rules: Seq<(String, EndpointLimit)>, endpoint: Seq<char>, i: int)
    requires
        0 <= i < rules.len(),
        exact_rule(rules.subrange(0, i), endpoint) is None,
        rules[i].0@ == endpoint,
    ensures
        exact_rule(rules, endpoint) == Some(i),
    decreases rules.len() - i,
{
    if i == rules.len() - 1 {
        assert(rules.drop_last() =~= rules.subrange(0, i));
    } else {
        assert(rules.drop_last().subrange(0, i) =~= rules.subrange(0, i));
        lemma_first_rule_exact(rules.drop_last(), endpoint, i);
    }
}

/// A group rule for the endpoint after none in a prefix of the rules is the first.
proof fn lemma_first_rule_prefix(rules: Seq<(String, EndpointLimit)>, endpoint: Seq<char>, i: int)
    requires
        0 <= i < rules.len(),
        prefix_rule(rules.subrange(0, i), endpoint) is None,
        ends_with(rules[i].0@, "/"@) && starts_with(endpoint, rules[i].0@),
    ensures
        prefix_rule(rules, endpoint) == Some(i),
    decreases rules.len() - i,
{
    if i == rules.len() - 1 {
        assert(rules.drop_last() =~= rules.subrange(0, i));
    } else {
        assert(rules.drop_last().subrange(0, i) =~= rules.subrange(0, i));
        lemma_first_rule_prefix(rules.drop_last(), endpoint, i);
    }
}


/// The outcome of admitting a request: the remaining requests of the tightest
/// per-minute limit and when the window resets (milliseconds).
#[derive(Debug, Clone, Copy, PartialEq, Eq, Structural)]
pub struct RateLimitResult {
    pub allowed: bool,
    pub remaining: u32,
    pub reset_time: i64,
    pub retry_after: Option<u64>,
}

/// The limiter's records as plain values: global record, then the records by client
/// address, by user and by endpoint.
pub type LimiterView = (EntryView, Map<Seq<char>, EntryView>, Map<Seq<char>, EntryView>, Map<Seq<char>, EntryView>);

/// The checks of a request in order (global, client address, user when signed in,
/// endpoint rule), stopping at the first refusal, with the records each check leaves.
pub open spec fn checked(
    c: RateLimitConfig,
    s: LimiterView,
    ip: Seq<char>,
    user: Option<Seq<char>>,
    endpoint: Seq<char>,
    is_admin: bool,
    now: i64,
) -> (Option<Refusal>, LimiterView) {
    let g = global_step(c.global_limits, s.0, now);
    if g.0 is Some {
        (g.0, (g.1, s.1, s.2, s.3))
    } else {
        let i = ip_step(c, entry_or_fresh(s.1, ip, now), now);
        let ips = s.1.insert(ip, i.1);
        if i.0 is Some {
            (i.0, (g.1, ips, s.2, s.3))
        } else {
            let u: (Option<Refusal>, Map<Seq<char>, EntryView>) = match user {
                Some(id) => {
                    let st = user_step(c.user_limits, is_admin, entry_or_fresh(s.2, id, now), now);
                    (st.0, s.2.insert(id, st.1))
                },
                None => (None, s.2),
            };
            if u.0 is Some {
                (u.0, (g.1, ips, u.1, s.3))
            } else {
                match rule_for(c.endpoint_limits@, endpoint) {
                    None => (None, (g.1, ips, u.1, s.3)),
                    Some(r) => match access_refusal(r, user is Some, is_admin) {
                        Some(f) => (Some(f), (g.1, ips, u.1, s.3)),
                        None => {
                            let e = endpoint_step(r, entry_or_fresh(s.3, endpoint, now), now);
                            (e.0, (g.1, ips, u.1, s.3.insert(endpoint, e.1)))
                        },
                    },
                }
            }
        }
    }
}

/// The records with a request at `now` added to the global record and to the records
/// of the client address, the user (when signed in) and the endpoint.
pub open spec fn recorded(s: LimiterView, ip: Seq<char>, user: Option<Seq<char>>, endpoint: Seq<char>, now: i64) -> LimiterView {
    (
        with_request(s.0, now),
        s.1.insert(ip, with_request(entry_or_fresh(s.1, ip, now), now)),
        match user {
            Some(id) => s.2.insert(id, with_request(entry_or_fresh(s.2, id, now), now)),
            None => s.2,
        },
        s.3.insert(endpoint, with_request(entry_or_fresh(s.3, endpoint, now), now)),
    )
}

/// `limit` less `used` (the count taken as `u32`), not below zero.
pub open spec fn left(limit: u32, used: nat) -> u32 {
    if limit >= (used as u32) {
        (limit - (used as u32)) as u32
    } else {
        0
    }
}

/// The requests left in the current minute under the tightest of the client address's,
/// the user's (ordinary) and the endpoint's per-minute limits that have a record; the
/// client address's limit where none has.
pub open spec fn remaining_of(
    c: RateLimitConfig,
    s: LimiterView,
    ip: Seq<char>,
    user: Option<Seq<char>>,
    endpoint: Seq<char>,
    now: i64,
) -> u32 {
    let r1: u32 = if s.1.dom().contains(ip) {
        left(c.ip_limits.requests_per_minute, count_after(s.1[ip].0, ago(now, 60000)))
    } else {
        u32::MAX
    };
    let r2: u32 = match user {
        Some(id) => if s.2.dom().contains(id) {
            let l = left(c.user_limits.authenticated_requests_per_minute, count_after(s.2[id].0, ago(now, 60000)));
            if l < r1 {
                l
            } else {
                r1
            }
        } else {
            r1
        },
        None => r1,
    };
    let r3: u32 = match rule_for(c.endpoint_limits@, endpoint) {
        Some(r) => if s.3.dom().contains(endpoint) {
            let l = left(r.requests_per_minute, count_after(s.3[endpoint].0, ago(now, 60000)));
            if l < r2 {
                l
            } else {
                r2
            }
        } else {
            r2
        },
        None => r2,
    };
    if r3 == u32::MAX {
        c.ip_limits.requests_per_minute
    } else {
        r3
    }
}

/// The rate limiter: its settings and its request records.
pub struct RateLimiterState {
    pub config: RateLimitConfig,
    pub ip_entries: EntryMap,
    pub user_entries: EntryMap,
    pub endpoint_entries: EntryMap,
    pub global_entry: RateLimitEntry,
}

impl RateLimiterState {
    pub open spec fn wf(&self) -> bool {
        self.ip_entries.wf() && self.user_entries.wf() && self.endpoint_entries.wf()
    }

    /// The records as plain values.
    pub open spec fn records(&self) -> LimiterView {
        (entry_view(self.global_entry), self.ip_entries@, self.user_entries@, self.endpoint_entries@)
    }

    /// A limiter with no records yet, created at `now`.
    pub fn new_at(config: RateLimitConfig, now: i64) -> (s: Self)
        ensures
            s.wf(),
            s.config == config,
            s.records() == (
                fresh_entry(now),
                Map::<Seq<char>, EntryView>::empty(),
                Map::<Seq<char>, EntryView>::empty(),
                Map::<Seq<char>, EntryView>::empty(),
            ),
    {
        RateLimiterState {
            config,
            ip_entries: EntryMap::new(),
            user_entries: EntryMap::new(),
            endpoint_entries: EntryMap::new(),
            global_entry: RateLimitEntry::new_at(now),
        }
    }

    /// The user check on the user's record.
    fn check_user_limits(&mut self, user: &str, is_admin: bool, now: i64) -> (r: Option<Refusal>)
        requires
            old(self).wf(),
        ensures
            final(self).wf(),
            final(self).config == old(self).config,
            final(self).global_entry == old(self).global_entry,
            final(self).ip_entries == old(self).ip_entries,
            final(self).endpoint_entries == old(self).endpoint_entries,
            ({
                let st = user_step(
                    old(self).config.user_limits,
                    is_admin,
                    entry_or_fresh(old(self).user_entries@, user@, now),
                    now,
                );
                r == st.0 && final(self).user_entries@ == old(self).user_entries@.insert(user@, st.1)
            }),
    {
        let i = self.user_entries.index_or_insert(user, now);
        let mut e = self.user_entries.entry_at(i);
        let r = check_user(&self.config.user_limits, is_admin, &mut e, now);
        self.user_entries.put(i, e);
        proof {
            assert(self.user_entries@ =~= old(self).user_entries@.insert(
                user@,
                user_step(
                    old(self).config.user_limits,
                    is_admin,
                    entry_or_fresh(old(self).user_entries@, user@, now),
                    now,
                ).1,
            ));
        }
        r
    }

    /// The client address check on its record.
    fn check_ip_limits(&mut self, ip: &str, now: i64) -> (r: Option<Refusal>)
        requires
            old(self).wf(),
        ensures
            final(self).wf(),
            final(self).config == old(self).config,
            final(self).global_entry == old(self).global_entry,
            final(self).user_entries == old(self).user_entries,
            final(self).endpoint_entries == old(self).endpoint_entries,
            ({
                let st = ip_step(old(self).config, entry_or_fresh(old(self).ip_entries@, ip@, now), now);
                r == st.0 && final(self).ip_entries@ == old(self).ip_entries@.insert(ip@, st.1)
            }),
    {
        let i = self.ip_entries.index_or_insert(ip, now);
        let mut e = self.ip_entries.entry_at(i);
        let r = check_ip(&self.config, &mut e, now);
        self.ip_entries.put(i, e);
        proof {
            assert(self.ip_entries@ =~= old(self).ip_entries@.insert(
                ip@,
                ip_step(old(self).config, entry_or_fresh(old(self).ip_entries@, ip@, now), now).1,
            ));
        }
        r
    }

    /// The endpoint check on its record, under its rule.
    fn check_endpoint_limits(&mut self, rule: &EndpointLimit, endpoint: &str, now: i64) -> (r: Option<Refusal>)
        requires
            old(self).wf(),
        ensures
            final(self).wf(),
            final(self).config == old(self).config,
            final(self).global_entry == old(self).global_entry,
            final(self).ip_entries == old(self).ip_entries,
            final(self).user_entries == old(self).user_entries,
            ({
                let st = endpoint_step(*rule, entry_or_fresh(old(self).endpoint_entries@, endpoint@, now), now);
                r == st.0 && final(self).endpoint_entries@ == old(self).endpoint_entries@.insert(endpoint@, st.1)
            }),
    {
        let i = self.endpoint_entries.index_or_insert(endpoint, now);
        let mut e = self.endpoint_entries.entry_at(i);
        let r = check_endpoint(rule, &mut e, now);
        self.endpoint_entries.put(i, e);
        proof {
            assert(self.endpoint_entries@ =~= old(self).endpoint_entries@.insert(
                endpoint@,
                endpoint_step(*rule, entry_or_fresh(old(self).endpoint_entries@, endpoint@, now), now).1,
            ));
        }
        r
    }
}


impl EntryMap {
    /// Records a request at `now` for `key` (with a new record where it has none).
    fn add_request_for(&mut self, key: &str, now: i64)
        requires
            old(self).wf(),
        ensures
            final(self).wf(),
            final(self)@ == old(self)@.insert(key@, with_request(entry_or_fresh(old(self)@, key@, now), now)),
    {
        let i = self.index_or_insert(key, now);
        let mut e = self.entry_at(i);
        e.add_request(now);
        self.put(i, e);
        assert(self@ =~= old(self)@.insert(key@, with_request(entry_or_fresh(old(self)@, key@, now), now)));
    }

    /// Marks a request of `key` finished, where `key` has a record.
    fn finish_for(&mut self, key: &str)
        requires
            old(self).wf(),
        ensures
            final(self).wf(),
            final(self)@ == if old(self)@.dom().contains(key@) {
                old(self)@.insert(key@, with_finish(old(self)@[key@]))
            } else {
                old(self)@
            },
    {
        match self.find(key) {
            Some(i) => {
                let mut e = self.entry_at(i);
                e.finish_request();
                self.put(i, e);
            },
            None => {},
        }
    }

    /// The requests of `key` after `cutoff`, where `key` has a record.
    fn count_for(&self, key: &str, cutoff: i128) -> (r: Option<usize>)
        requires
            self.wf(),
        ensures
            match r {
                Some(n) => self@.dom().contains(key@) && n == count_after(self@[key@].0, cutoff as int),
                None => !self@.dom().contains(key@),
            },
    {
        match self.find(key) {
            Some(i) => Some(self.entries[i].request_count(cutoff)),
            None => None,
        }
    }
}

/// `limit` less `used` taken as `u32`, not below zero.
fn left_of(limit: u32, used: usize) -> (r: u32)
    ensures
        r == left(limit, used as nat),
{
    limit.saturating_sub(used as u32)
}

impl RateLimiterState {
    /// The requests left in the current minute for this client, user and endpoint.
    pub fn calculate_remaining_at(&self, ip: &str, user_id: Option<&str>, endpoint: &str, now: i64) -> (r: u32)
        requires
            self.wf(),
        ensures
            r == remaining_of(
                self.config,
                self.records(),
                ip@,
                match user_id {
                    Some(u) => Some(u@),
                    None => None,
                },
                endpoint@,
                now,
            ),
    {
        let minute: i128 = now as i128 - 60000;
        let mut remaining: u32 = u32::MAX;
        match self.ip_entries.count_for(ip, minute) {
            Some(n) => {
                let l = left_of(self.config.ip_limits.requests_per_minute, n);
                if l < remaining {
                    remaining = l;
                }
            },
            None => {},
        }
        match user_id {
            Some(u) => match self.user_entries.count_for(u, minute) {
                Some(n) => {
                    let l = left_of(self.config.user_limits.authenticated_requests_per_minute, n);
                    if l < remaining {
                        remaining = l;
                    }
                },
                None => {},
            },
            None => {},
        }
        match find_endpoint_config(&self.config.endpoint_limits, endpoint) {
            Some(rule) => match self.endpoint_entries.count_for(endpoint, minute) {
                Some(n) => {
                    let l = left_of(rule.requests_per_minute, n);
                    if l < remaining {
                        remaining = l;
                    }
                },
                None => {},
            },
            None => {},
        }
        if remaining == u32::MAX {
            self.config.ip_limits.requests_per_minute
        } else {
            remaining
        }
    }

    /// Records an admitted request at `now`.
    fn record_request_at(&mut self, ip: &str, user_id: Option<&str>, endpoint: &str, now: i64)
        requires
            old(self).wf(),
        ensures
            final(self).wf(),
            final(self).config == old(self).config,
            final(self).records() == recorded(
                old(self).records(),
                ip@,
                match user_id {
                    Some(u) => Some(u@),
                    None => None,
                },
                endpoint@,
                now,
            ),
    {
        self.global_entry.add_request(now);
        self.ip_entries.add_request_for(ip, now);
        match user_id {
            Some(u) => self.user_entries.add_request_for(u, now),
            None => {},
        }
        self.endpoint_entries.add_request_for(endpoint, now);
    }

    /// Checks a request at `now` from client address `ip`, by `user_id` when signed in,
    /// to `endpoint`. A refused request is answered with the first refusal (see
    /// `checked`) and leaves the records the checks left; an admitted one is recorded, and
    /// the answer gives the requests left and the end of the window.
    pub fn check_rate_limit_at(&mut self, ip: &str, user_id: Option<&str>, endpoint: &str, is_admin: bool, now: i64) -> (r:
        Result<RateLimitResult, RateLimitError>)
        requires
            old(self).wf(),
            now + old(self).config.window_size * 1000 <= i64::MAX,
        ensures
            final(self).wf(),
            final(self).config == old(self).config,
            ({
                let u = match user_id {
                    Some(x) => Some(x@),
                    None => None,
                };
                let c = checked(old(self).config, old(self).records(), ip@, u, endpoint@, is_admin, now);
                match c.0 {
                    Some(f) => final(self).records() == c.1 && (r matches Err(e) && is_refusal(
                        e,
                        f,
                        ip@,
                        match user_id {
                            Some(x) => x@,
                            None => Seq::empty(),
                        },
                        endpoint@,
                    )),
                    None => final(self).records() == recorded(c.1, ip@, u, endpoint@, now) && r == Ok::<
                        RateLimitResult,
                        RateLimitError,
                    >(
                        RateLimitResult {
                            allowed: true,
                            remaining: remaining_of(old(self).config, final(self).records(), ip@, u, endpoint@, now),
                            reset_time: (now + old(self).config.window_size * 1000) as i64,
                            retry_after: None,
                        },
                    ),
                }
            }),
    {
        let ghost u = match user_id {
            Some(x) => Some(x@),
            None => None::<Seq<char>>,
        };
        let ghost s0 = self.records();
        if let Some(f) = check_global_limits(&self.config.global_limits, &mut self.global_entry, now) {
            return Err(self.refusal_error(f, ip, user_id, endpoint));
        }
        if let Some(f) = self.check_ip_limits(ip, now) {
            return Err(self.refusal_error(f, ip, user_id, endpoint));
        }
        match user_id {
            Some(id) => {
                if let Some(f) = self.check_user_limits(id, is_admin, now) {
                    return Err(self.refusal_error(f, ip, user_id, endpoint));
                }
            },
            None => {},
        }
        match find_endpoint_config(&self.config.endpoint_limits, endpoint) {
            Some(rule) => {
                if rule.require_auth && user_id.is_none() {
                    return Err(RateLimitError::AuthenticationRequired);
                }
                if rule.admin_only && !is_admin {
                    return Err(RateLimitError::AdminRequired);
                }
                if let Some(f) = self.check_endpoint_limits(&rule, endpoint, now) {
                    return Err(self.refusal_error(f, ip, user_id, endpoint));
                }
            },
            None => {},
        }
        self.record_request_at(ip, user_id, endpoint, now);
        let remaining = self.calculate_remaining_at(ip, user_id, endpoint, now);
        Ok(
            RateLimitResult {
                allowed: true,
                remaining,
                reset_time: (now as i128 + self.config.window_size as i128 * 1000) as i64,
                retry_after: None,
            },
        )
    }

    /// The error of a refusal, about this request's client address, user and endpoint.
    fn refusal_error(&self, f: Refusal, ip: &str, user_id: Option<&str>, endpoint: &str) -> (e: RateLimitError)
        ensures
            is_refusal(
                e,
                f,
                ip@,
                match user_id {
                    Some(x) => x@,
                    None => Seq::empty(),
                },
                endpoint@,
            ),
    {
        match f {
            Refusal::Global(limit, window) => RateLimitError::GlobalLimitExceeded { limit, window },
            Refusal::Ip(limit, window) => RateLimitError::IpLimitExceeded { ip: String::from_str(ip), limit, window },
            Refusal::User(limit, window) => {
                let user_id = match user_id {
                    Some(x) => String::from_str(x),
                    None => String::new(),
                };
                RateLimitError::UserLimitExceeded { user_id, limit, window }
            },
            Refusal::Endpoint(limit, window) => RateLimitError::EndpointLimitExceeded {
                endpoint: String::from_str(endpoint),
                limit,
                window,
            },
            Refusal::Concurrent(limit) => RateLimitError::ConcurrentLimitExceeded { limit },
            Refusal::AuthenticationRequired => RateLimitError::AuthenticationRequired,
            Refusal::AdminRequired => RateLimitError::AdminRequired,
        }
    }

    /// Marks a finished request: one request fewer in progress globally and for the
    /// client address, the user and the endpoint that have a record.
    pub fn finish_request(&mut self, ip: &str, user_id: Option<&str>, endpoint: &str)
        requires
            old(self).wf(),
        ensures
            final(self).wf(),
            final(self).config == old(self).config,
            final(self).records() == (
                with_finish(old(self).records().0),
                if old(self).records().1.dom().contains(ip@) {
                    old(self).records().1.insert(ip@, with_finish(old(self).records().1[ip@]))
                } else {
                    old(self).records().1
                },
                match user_id {
                    Some(x) => if old(self).records().2.dom().contains(x@) {
                        old(self).records().2.insert(x@, with_finish(old(self).records().2[x@]))
                    } else {
                        old(self).records().2
                    },
                    None => old(self).records().2,
                },
                if old(self).records().3.dom().contains(endpoint@) {
                    old(self).records().3.insert(endpoint@, with_finish(old(self).records().3[endpoint@]))
                } else {
                    old(self).records().3
                },
            ),
    {
        self.global_entry.finish_request();
        self.ip_entries.finish_for(ip);
        match user_id {
            Some(u) => self.user_entries.finish_for(u),
            None => {},
        }
        self.endpoint_entries.finish_for(endpoint);
    }

    /// Drops the records of client addresses, users and endpoints without a request in
    /// the hour before `now`.
    pub fn cleanup_old_entries_at(&mut self, now: i64)
        requires
            old(self).wf(),
        ensures
            final(self).wf(),
            final(self).config == old(self).config,
            final(self).records() == (
                old(self).records().0,
                recent_only(old(self).records().1, ago(now, 3600000)),
                recent_only(old(self).records().2, ago(now, 3600000)),
                recent_only(old(self).records().3, ago(now, 3600000)),
            ),
    {
        let cutoff: i128 = now as i128 - 3600000;
        self.ip_entries.retain_recent(cutoff);
        self.user_entries.retain_recent(cutoff);
        self.endpoint_entries.retain_recent(cutoff);
    }
}


impl RateLimiterState {
    /// A limiter with no records yet, created now.
    pub fn new(config: RateLimitConfig) -> (s: Self)
        ensures
            s.wf(),
            s.config == config,
            s.records().1 == Map::<Seq<char>, EntryView>::empty(),
            s.records().2 == Map::<Seq<char>, EntryView>::empty(),
            s.records().3 == Map::<Seq<char>, EntryView>::empty(),
    {
        let now = now_millis();
        Self::new_at(config, now)
    }
}

/// An admitted request counts against its client: after it, the client's record holds
/// one request more in the minute before `now` than before the check.
pub proof fn lemma_admitted_request_counted(
    c: RateLimitConfig,
    s: LimiterView,
    ip: Seq<char>,
    user: Option<Seq<char>>,
    endpoint: Seq<char>,
    is_admin: bool,
    now: i64,
)
    requires
        checked(c, s, ip, user, endpoint, is_admin, now).0 is None,
    ensures
        ({
            let after = recorded(checked(c, s, ip, user, endpoint, is_admin, now).1, ip, user, endpoint, now);
            after.1.dom().contains(ip) && count_after(after.1[ip].0, ago(now, 60000)) == count_after(
                entry_or_fresh(s.1, ip, now).0,
                ago(now, 60000),
            ) + 1
        }),
{
    let e = entry_or_fresh(s.1, ip, now);
    let kept = kept_after(e.0, ago(now, 3600000));
    lemma_count_after_kept(e.0, ago(now, 3600000), ago(now, 60000));
    assert(kept.push(now).drop_last() =~= kept);
}

/// A client with as many requests in the last minute as its per-minute limit, and no
/// burst tokens for one more (or bursts not allowed), is refused.
pub proof fn lemma_client_over_limit_refused(
    c: RateLimitConfig,
    s: LimiterView,
    ip: Seq<char>,
    user: Option<Seq<char>>,
    endpoint: Seq<char>,
    is_admin: bool,
    now: i64,
)
    requires
        count_after(entry_or_fresh(s.1, ip, now).0, ago(now, 60000)) >= c.ip_limits.requests_per_minute,
        !c.allow_burst || refilled(
            cleaned(entry_or_fresh(s.1, ip, now), ago(now, 3600000)),
            c.ip_limits.requests_per_minute,
            c.burst_multiplier,
            now,
        ) < REQUEST_UNITS,
    ensures
        checked(c, s, ip, user, endpoint, is_admin, now).0 is Some,
{
}

/// The requests of the record of `key` after `cutoff`.
pub open spec fn count_for(m: Map<Seq<char>, EntryView>, key: Seq<char>, now: i64, cutoff: int) -> nat {
    count_after(entry_or_fresh(m, key, now).0, cutoff)
}

/// Cleaning a record up to a time no later than `cutoff` keeps its requests after `cutoff`.
proof fn lemma_cleaned_count(e: EntryView, c1: int, cutoff: int)
    requires
        c1 <= cutoff,
    ensures
        count_after(cleaned(e, c1).0, cutoff) == count_after(e.0, cutoff),
{
    lemma_count_after_kept(e.0, c1, cutoff);
}

/// Recording a request at `now` adds one request after any earlier `cutoff`.
proof fn lemma_with_request_count(e: EntryView, now: i64, cutoff: int)
    requires
        cutoff < now,
    ensures
        count_after(with_request(e, now).0, cutoff) == count_after(e.0, cutoff) + 1,
{
    assert(with_request(e, now).0.drop_last() =~= e.0);
}

/// The checks of a request count no request: after them every record, global or keyed,
/// has the requests after `cutoff` it had (for a cutoff within the last minute).
pub proof fn lemma_checks_count_nothing(
    c: RateLimitConfig,
    s: LimiterView,
    ip: Seq<char>,
    user: Option<Seq<char>>,
    endpoint: Seq<char>,
    is_admin: bool,
    now: i64,
    key: Seq<char>,
    cutoff: int,
)
    requires
        ago(now, 60000) <= cutoff,
    ensures
        ({
            let t = checked(c, s, ip, user, endpoint, is_admin, now).1;
            &&& count_after(t.0.0, cutoff) == count_after(s.0.0, cutoff)
            &&& count_for(t.1, key, now, cutoff) == count_for(s.1, key, now, cutoff)
            &&& count_for(t.2, key, now, cutoff) == count_for(s.2, key, now, cutoff)
            &&& count_for(t.3, key, now, cutoff) == count_for(s.3, key, now, cutoff)
        }),
{
    lemma_cleaned_count(s.0, ago(now, 60000), cutoff);
    lemma_cleaned_count(entry_or_fresh(s.1, ip, now), ago(now, 3600000), cutoff);
    match user {
        Some(id) => lemma_cleaned_count(entry_or_fresh(s.2, id, now), ago(now, 3600000), cutoff),
        None => {},
    }
    lemma_cleaned_count(entry_or_fresh(s.3, endpoint, now), ago(now, 3600000), cutoff);
}

/// The rate limits across their windows: the checks of a request count nothing, and an
/// admitted request is counted once, within the last minute, in the global record and in
/// the records of its client address, its user (when signed in) and its endpoint, and in
/// no other record; a refused request is counted nowhere.
pub proof fn lemma_request_counted_once_in_each_window(
    c: RateLimitConfig,
    s: LimiterView,
    ip: Seq<char>,
    user: Option<Seq<char>>,
    endpoint: Seq<char>,
    is_admin: bool,
    now: i64,
    key: Seq<char>,
    cutoff: int,
)
    requires
        ago(now, 60000) <= cutoff < now,
    ensures
        ({
            let ck = checked(c, s, ip, user, endpoint, is_admin, now);
            let a = recorded(ck.1, ip, user, endpoint, now);
            &&& ck.0 is Some ==> {
                &&& count_after(ck.1.0.0, cutoff) == count_after(s.0.0, cutoff)
                &&& count_for(ck.1.1, key, now, cutoff) == count_for(s.1, key, now, cutoff)
                &&& count_for(ck.1.2, key, now, cutoff) == count_for(s.2, key, now, cutoff)
                &&& count_for(ck.1.3, key, now, cutoff) == count_for(s.3, key, now, cutoff)
            }
            &&& ck.0 is None ==> {
                &&& count_after(a.0.0, cutoff) == count_after(s.0.0, cutoff) + 1
                &&& count_for(a.1, key, now, cutoff) == count_for(s.1, key, now, cutoff) + if key == ip {
                    1nat
                } else {
                    0nat
                }
                &&& count_for(a.2, key, now, cutoff) == count_for(s.2, key, now, cutoff) + if user == Some(key) {
                    1nat
                } else {
                    0nat
                }
                &&& count_for(a.3, key, now, cutoff) == count_for(s.3, key, now, cutoff) + if key == endpoint {
                    1nat
                } else {
                    0nat
                }
            }
        }),
{
    let ck = checked(c, s, ip, user, endpoint, is_admin, now);
    let t = ck.1;
    lemma_checks_count_nothing(c, s, ip, user, endpoint, is_admin, now, key, cutoff);
    lemma_checks_count_nothing(c, s, ip, user, endpoint, is_admin, now, ip, cutoff);
    lemma_checks_count_nothing(c, s, ip, user, endpoint, is_admin, now, endpoint, cutoff);
    lemma_with_request_count(t.0, now, cutoff);
    lemma_with_request_count(entry_or_fresh(t.1, ip, now), now, cutoff);
    lemma_with_request_count(entry_or_fresh(t.3, endpoint, now), now, cutoff);
    match user {
        Some(id) => {
            lemma_checks_count_nothing(c, s, ip, user, endpoint, is_admin, now, id, cutoff);
            lemma_with_request_count(entry_or_fresh(t.2, id, now), now, cutoff);
        },
        None => {},
    }
}


/// The readable value of header `name`, as a list of at most one text.
pub open spec fn readable_header(headers: Seq<(String, String)>, name: Seq<char>) -> Seq<Seq<char>> {
    match header_value(headers, name) {
        Some(v) => if readable_text(v) {
            seq![v]
        } else {
            Seq::empty()
        },
        None => Seq::empty(),
    }
}

/// The texts to try, in order, as the client's address: the first entry of
/// `x-forwarded-for` (trimmed), then `x-real-ip`, then `cf-connecting-ip`; each only where
/// its header is readable.
pub open spec fn ip_candidates(headers: Seq<(String, String)>) -> Seq<Seq<char>> {
    (match header_value(headers, "x-forwarded-for"@) {
        Some(v) => if readable_text(v) {
            seq![trim(comma_pieces(v)[0])]
        } else {
            Seq::empty()
        },
        None => Seq::empty(),
    }) + readable_header(headers, "x-real-ip"@) + readable_header(headers, "cf-connecting-ip"@)
}

/// The texts to try as the client's address, in order (see `ip_candidates`); the first
/// that parses as an address is the client's.
pub fn client_ip_candidates(headers: &Vec<(String, String)>) -> (r: Vec<String>)
    ensures
        r@.len() == ip_candidates(headers@).len(),
        forall|i: int| 0 <= i < r@.len() ==> (#[trigger] r@[i])@ == ip_candidates(headers@)[i],
{
    let mut r: Vec<String> = Vec::new();
    match find_header(headers, "x-forwarded-for") {
        Some(v) => {
            if is_readable_text(&v) {
                let pieces = split_commas(&v);
                proof {
                    lemma_comma_pieces_nonempty(v@);
                    assert(char_views(pieces@)[0] == pieces@[0]@);
                }
                let first = trim_chars(&pieces[0]);
                r.push(string_from_chars(&first));
            }
        },
        None => {},
    }
    let ghost a = r@;
    match find_header(headers, "x-real-ip") {
        Some(v) => {
            if is_readable_text(&v) {
                r.push(string_from_chars(&v));
            }
        },
        None => {},
    }
    let ghost b = r@;
    match find_header(headers, "cf-connecting-ip") {
        Some(v) => {
            if is_readable_text(&v) {
                r.push(string_from_chars(&v));
            }
        },
        None => {},
    }
    proof {
        let c = ip_candidates(headers@);
        let x = match header_value(headers@, "x-forwarded-for"@) {
            Some(v) => if readable_text(v) {
                seq![trim(comma_pieces(v)[0])]
            } else {
                Seq::empty()
            },
            None => Seq::empty(),
        };
        assert(a.len() == x.len());
        assert(b.len() == x.len() + readable_header(headers@, "x-real-ip"@).len());
        assert forall|i: int| 0 <= i < r@.len() implies (#[trigger] r@[i])@ == c[i] by {
            if i < a.len() {
                assert(r@[i] == a[i]);
            } else if i < b.len() {
                assert(r@[i] == b[i]);
            }
        }
    }
    r
}

/// There is always a first piece.
proof fn lemma_comma_pieces_nonempty(s: Seq<char>)
    ensures
        comma_pieces(s).len() >= 1,
    decreases s.len(),
{
    if s.len() > 0 {
        lemma_comma_pieces_nonempty(s.drop_last());
    }
}

} // verus!

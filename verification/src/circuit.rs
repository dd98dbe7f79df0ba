//! Per-endpoint circuit breaker and request counters of the API gateway.
//! Times are milliseconds on one clock; durations are milliseconds.
use vstd::prelude::*;
use crate::clock::now_millis;

verus! {

/// Circuit breaker configuration.
#[derive(Debug, Clone, Copy, PartialEq, Eq)]
pub struct CircuitBreakerConfig {
    /// Failures within the window that open a closed circuit.
    pub failure_threshold: u32,
    /// Window, in milliseconds, within which failures are counted.
    pub time_window: u64,
    /// Time, in milliseconds, after the last failure before an open circuit half-opens.
    pub recovery_timeout: u64,
    /// Successes that close a half-open circuit.
    pub success_threshold: u32,
}

/// State of a circuit breaker.
#[derive(Debug, Clone, Copy, PartialEq, Eq, Structural)]
pub enum CircuitBreakerState {
    Closed,
    Open,
    HalfOpen,
}

/// Circuit breaker implementation.
#[derive(Debug)]
pub struct CircuitBreaker {
    pub config: CircuitBreakerConfig,
    pub state: CircuitBreakerState,
    pub failure_count: u32,
    pub success_count: u32,
    pub last_failure_time: Option<i64>,
    pub failure_times: Vec<i64>,
}

/// The abstract state of a circuit breaker.
pub struct BreakerModel {
    pub state: CircuitBreakerState,
    pub failure_count: nat,
    pub success_count: nat,
    pub last_failure_time: Option<i64>,
    pub failure_times: Seq<i64>,
}

impl View for CircuitBreaker {
    type V = BreakerModel;

    open spec fn view(&self) -> BreakerModel {
        BreakerModel {
            state: self.state,
            failure_count: self.failure_count as nat,
            success_count: self.success_count as nat,
            last_failure_time: self.last_failure_time,
            failure_times: self.failure_times@,
        }
    }
}

/// The times of `s` that are later than `cutoff`, in order.
pub open spec fn times_after(s: Seq<i64>, cutoff: int) -> Seq<i64>
    decreases s.len(),
{
    if s.len() == 0 {
        Seq::empty()
    } else {
        let rest = times_after(s.drop_last(), cutoff);
        if s.last() > cutoff {
            rest.push(s.last())
        } else {
            rest
        }
    }
}

proof fn lemma_times_after_len(s: Seq<i64>, cutoff: int)
    ensures
        times_after(s, cutoff).len() <= s.len(),
    decreases s.len(),
{
    if s.len() > 0 {
        lemma_times_after_len(s.drop_last(), cutoff);
    }
}

/// Every time in `s` is later than `cutoff`, so none is dropped.
proof fn lemma_times_after_all(s: Seq<i64>, cutoff: int)
    requires
        forall|i: int| 0 <= i < s.len() ==> s[i] > cutoff,
    ensures
        times_after(s, cutoff) == s,
    decreases s.len(),
{
    if s.len() > 0 {
        lemma_times_after_all(s.drop_last(), cutoff);
        assert(s.drop_last().push(s.last()) =~= s);
    }
}

impl BreakerModel {
    /// The breaker after a failure at `now`: the failure is counted, failures older than
    /// the window are forgotten, a closed circuit opens at the threshold and a half-open
    /// one opens at once.
    pub open spec fn after_failure(self, cfg: CircuitBreakerConfig, now: i64) -> BreakerModel {
        let times = times_after(self.failure_times.push(now), now - cfg.time_window);
        let count = times.len();
        let opened = self.state == CircuitBreakerState::Closed && count >= cfg.failure_threshold;
        BreakerModel {
            state: if opened || self.state == CircuitBreakerState::HalfOpen {
                CircuitBreakerState::Open
            } else {
                self.state
            },
            failure_count: count,
            success_count: self.success_count,
            last_failure_time: Some(now),
            failure_times: times,
        }
    }

    /// The breaker after a success: a half-open circuit counts it and closes (clearing all
    /// counts) at the threshold; a closed circuit forgets its failures; an open one is unchanged.
    pub open spec fn after_success(self, cfg: CircuitBreakerConfig) -> BreakerModel {
        match self.state {
            CircuitBreakerState::HalfOpen => {
                if self.success_count + 1 >= cfg.success_threshold {
                    BreakerModel {
                        state: CircuitBreakerState::Closed,
                        failure_count: 0,
                        success_count: 0,
                        last_failure_time: None,
                        failure_times: Seq::empty(),
                    }
                } else {
                    BreakerModel { success_count: self.success_count + 1, ..self }
                }
            },
            CircuitBreakerState::Closed => BreakerModel {
                failure_count: 0,
                failure_times: Seq::empty(),
                ..self
            },
            CircuitBreakerState::Open => self,
        }
    }

    /// The breaker after its state is refreshed at `now`: an open circuit whose last failure
    /// lies more than the recovery timeout in the past becomes half-open with no successes.
    pub open spec fn refreshed(self, cfg: CircuitBreakerConfig, now: i64) -> BreakerModel {
        match self.last_failure_time {
            Some(t) => if self.state == CircuitBreakerState::Open && now - t > cfg.recovery_timeout {
                BreakerModel { state: CircuitBreakerState::HalfOpen, success_count: 0, ..self }
            } else {
                self
            },
            None => self,
        }
    }
}

impl CircuitBreaker {
    /// A closed circuit with no recorded failures or successes.
    pub fn new(config: CircuitBreakerConfig) -> (cb: Self)
        ensures
            cb.config == config,
            cb@.state == CircuitBreakerState::Closed,
            cb@.failure_count == 0,
            cb@.success_count == 0,
            cb@.last_failure_time.is_none(),
            cb@.failure_times.len() == 0,
    {
        CircuitBreaker {
            config,
            state: CircuitBreakerState::Closed,
            failure_count: 0,
            success_count: 0,
            last_failure_time: None,
            failure_times: Vec::new(),
        }
    }

    /// Refreshes the state at `now` and reports whether the circuit is open.
    pub fn is_open_at(&mut self, now: i64) -> (r: bool)
        ensures
            final(self)@ == old(self)@.refreshed(old(self).config, now),
            final(self).config == old(self).config,
            r == (final(self)@.state == CircuitBreakerState::Open),
    {
        self.update_state_at(now);
        self.state == CircuitBreakerState::Open
    }

    /// Refreshes the state now and reports whether the circuit is open.
    pub fn is_open(&mut self) -> (r: bool)
        ensures
            final(self).config == old(self).config,
            exists|now: i64| final(self)@ == old(self)@.refreshed(old(self).config, now),
            r == (final(self)@.state == CircuitBreakerState::Open),
    {
        let now = now_millis();
        self.is_open_at(now)
    }

    /// Records a successful request.
    pub fn record_success(&mut self)
        requires
            old(self).success_count < u32::MAX,
        ensures
            final(self)@ == old(self)@.after_success(old(self).config),
            final(self).config == old(self).config,
    {
        match self.state {
            CircuitBreakerState::HalfOpen => {
                self.success_count = self.success_count + 1;
                if self.success_count >= self.config.success_threshold {
                    self.state = CircuitBreakerState::Closed;
                    self.reset_counts();
                }
            },
            CircuitBreakerState::Closed => {
                self.failure_count = 0;
                self.failure_times.clear();
            },
            CircuitBreakerState::Open => {},
        }
        assert(self@.failure_times =~= old(self)@.after_success(old(self).config).failure_times);
    }

    /// Records a failed request at time `now`.
    pub fn record_failure_at(&mut self, now: i64)
        requires
            old(self).failure_times.len() < u32::MAX,
        ensures
            final(self)@ == old(self)@.after_failure(old(self).config, now),
            final(self).config == old(self).config,
    {
        let ghost before = self.failure_times@;
        self.failure_times.push(now);
        self.last_failure_time = Some(now);
        let cutoff: i128 = (now as i128) - (self.config.time_window as i128);
        let n = self.failure_times.len();
        let mut kept: Vec<i64> = Vec::new();
        let mut i: usize = 0;
        while i < n
            invariant
                n == self.failure_times.len(),
                self.failure_times@ == before.push(now),
                i <= n,
                kept@ == times_after(self.failure_times@.subrange(0, i as int), cutoff as int),
            decreases n - i,
        {
            let t = self.failure_times[i];
            assert(self.failure_times@.subrange(0, i + 1).drop_last() =~= self.failure_times@.subrange(0, i as int));
            if (t as i128) > cutoff {
                kept.push(t);
            }
            i = i + 1;
        }
        assert(self.failure_times@.subrange(0, n as int) =~= self.failure_times@);
        proof {
            lemma_times_after_len(before.push(now), cutoff as int);
        }
        self.failure_times = kept;
        self.failure_count = self.failure_times.len() as u32;
        if self.state == CircuitBreakerState::Closed && self.failure_count >= self.config.failure_threshold {
            self.state = CircuitBreakerState::Open;
        }
        if self.state == CircuitBreakerState::HalfOpen {
            self.state = CircuitBreakerState::Open;
        }
    }

    /// Records a failed request now.
    pub fn record_failure(&mut self)
        requires
            old(self).failure_times.len() < u32::MAX,
        ensures
            exists|now: i64| final(self)@ == old(self)@.after_failure(old(self).config, now),
            final(self).config == old(self).config,
    {
        let now = now_millis();
        self.record_failure_at(now);
    }

    /// Moves an open circuit to half-open once the recovery timeout has passed since the
    /// last failure.
    pub fn update_state_at(&mut self, now: i64)
        ensures
            final(self)@ == old(self)@.refreshed(old(self).config, now),
            final(self).config == old(self).config,
    {
        if self.state == CircuitBreakerState::Open {
            if let Some(last) = self.last_failure_time {
                if (now as i128) - (last as i128) > (self.config.recovery_timeout as i128) {
                    self.state = CircuitBreakerState::HalfOpen;
                    self.success_count = 0;
                }
            }
        }
    }

    /// Clears every count and the failure history.
    pub fn reset_counts(&mut self)
        ensures
            final(self).config == old(self).config,
            final(self).state == old(self).state,
            final(self)@.failure_count == 0,
            final(self)@.success_count == 0,
            final(self)@.failure_times.len() == 0,
            final(self)@.last_failure_time.is_none(),
    {
        self.failure_count = 0;
        self.success_count = 0;
        self.failure_times.clear();
        self.last_failure_time = None;
    }
}

/// A success leaves an open circuit exactly as it was.
pub proof fn lemma_open_success_unchanged(b: BreakerModel, cfg: CircuitBreakerConfig)
    requires
        b.state == CircuitBreakerState::Open,
    ensures
        b.after_success(cfg) == b,
{
}

/// A success makes a closed circuit count afresh: with a threshold above one, the next
/// failure leaves it closed, whatever failures came before the success.
pub proof fn lemma_success_then_failure_stays_closed(b: BreakerModel, cfg: CircuitBreakerConfig, now: i64)
    requires
        b.state == CircuitBreakerState::Closed,
        cfg.failure_threshold > 1,
    ensures
        b.after_success(cfg).after_failure(cfg, now).state == CircuitBreakerState::Closed,
        b.after_success(cfg).after_failure(cfg, now).failure_count <= 1,
{
    reveal_with_fuel(times_after, 2);
    assert(Seq::<i64>::empty().push(now).drop_last() =~= Seq::<i64>::empty());
}

/// A closed breaker whose remembered failures all lie within the window of `now`, and
/// which has `threshold - 1` of them, opens on a failure at `now`.
pub proof fn lemma_threshold_failures_open(b: BreakerModel, cfg: CircuitBreakerConfig, now: i64)
    requires
        b.state == CircuitBreakerState::Closed,
        b.failure_times.len() + 1 >= cfg.failure_threshold,
        forall|i: int| 0 <= i < b.failure_times.len() ==> b.failure_times[i] > now - cfg.time_window,
        cfg.time_window > 0,
    ensures
        b.after_failure(cfg, now).state == CircuitBreakerState::Open,
        b.after_failure(cfg, now).failure_count == b.failure_times.len() + 1,
{
    let s = b.failure_times.push(now);
    assert forall|i: int| 0 <= i < s.len() implies s[i] > now - cfg.time_window by {
        if i < b.failure_times.len() {
            assert(s[i] == b.failure_times[i]);
        }
    }
    lemma_times_after_all(s, now - cfg.time_window);
}

/// While the recovery timeout has not passed since the last failure, an open circuit
/// stays open.
pub proof fn lemma_open_until_recovery(b: BreakerModel, cfg: CircuitBreakerConfig, now: i64, last: i64)
    requires
        b.state == CircuitBreakerState::Open,
        b.last_failure_time == Some(last),
        now - last <= cfg.recovery_timeout,
    ensures
        b.refreshed(cfg, now).state == CircuitBreakerState::Open,
{
}

/// A success while closed forgets every failure.
pub proof fn lemma_success_clears_failures(b: BreakerModel, cfg: CircuitBreakerConfig)
    requires
        b.state == CircuitBreakerState::Closed,
    ensures
        b.after_success(cfg).state == CircuitBreakerState::Closed,
        b.after_success(cfg).failure_count == 0,
        b.after_success(cfg).failure_times.len() == 0,
{
}

/// A half-open circuit one success short of the threshold closes on the next success.
pub proof fn lemma_half_open_closes(b: BreakerModel, cfg: CircuitBreakerConfig)
    requires
        b.state == CircuitBreakerState::HalfOpen,
        b.success_count + 1 >= cfg.success_threshold,
    ensures
        b.after_success(cfg).state == CircuitBreakerState::Closed,
{
}

/// A failure while half-open reopens the circuit.
pub proof fn lemma_half_open_failure_reopens(b: BreakerModel, cfg: CircuitBreakerConfig, now: i64)
    requires
        b.state == CircuitBreakerState::HalfOpen,
    ensures
        b.after_failure(cfg, now).state == CircuitBreakerState::Open,
{
}

/// The count that a list of (name, count) entries records for `key`: that of the last
/// entry with that name, 0 when none has it.
pub open spec fn count_in(s: Seq<(String, u64)>, key: Seq<char>) -> nat
    decreases s.len(),
{
    if s.len() == 0 {
        0
    } else if s.last().0@ == key {
        s.last().1 as nat
    } else {
        count_in(s.drop_last(), key)
    }
}

/// No name occurs twice in the entries.
pub open spec fn keys_unique(s: Seq<(String, u64)>) -> bool {
    forall|i: int, j: int| 0 <= i < j < s.len() ==> #[trigger] s[i].0@ != #[trigger] s[j].0@
}

proof fn lemma_count_absent(s: Seq<(String, u64)>, key: Seq<char>)
    requires
        forall|m: int| 0 <= m < s.len() ==> #[trigger] s[m].0@ != key,
    ensures
        count_in(s, key) == 0,
    decreases s.len(),
{
    if s.len() > 0 {
        assert(s.last().0@ != key);
        lemma_count_absent(s.drop_last(), key);
    }
}

proof fn lemma_count_at(s: Seq<(String, u64)>, key: Seq<char>, i: int)
    requires
        keys_unique(s),
        0 <= i < s.len(),
        s[i].0@ == key,
    ensures
        count_in(s, key) == s[i].1,
    decreases s.len(),
{
    if i != s.len() - 1 {
        assert(s.last().0@ != key);
        assert(s.drop_last()[i] == s[i]);
        lemma_count_at(s.drop_last(), key, i);
    }
}

proof fn lemma_count_update(s: Seq<(String, u64)>, i: int, e: (String, u64), key: Seq<char>)
    requires
        0 <= i < s.len(),
        e.0@ == s[i].0@,
        keys_unique(s),
        key != e.0@,
    ensures
        count_in(s.update(i, e), key) == count_in(s, key),
    decreases s.len(),
{
    let t = s.update(i, e);
    if i == s.len() - 1 {
        assert(t.drop_last() =~= s.drop_last());
    } else {
        assert(t.drop_last() =~= s.drop_last().update(i, e));
        assert(t.last() == s.last());
        assert(keys_unique(s.drop_last()));
        lemma_count_update(s.drop_last(), i, e, key);
    }
}

/// Request, error and version counters keyed by name.
#[derive(Debug)]
pub struct CounterMap {
    pub entries: Vec<(String, u64)>,
}

impl CounterMap {
    /// No key occurs twice.
    pub open spec fn wf(&self) -> bool {
        keys_unique(self.entries@)
    }

    /// The count recorded for `key` (0 when absent).
    pub open spec fn count(&self, key: Seq<char>) -> nat {
        count_in(self.entries@, key)
    }

    /// An empty counter map.
    pub fn new() -> (m: Self)
        ensures
            m.wf(),
            forall|k: Seq<char>| #[trigger] m.count(k) == 0,
    {
        CounterMap { entries: Vec::new() }
    }

    /// The count recorded for `key`.
    pub fn get(&self, key: &str) -> (r: u64)
        requires
            self.wf(),
        ensures
            r == self.count(key@),
    {
        let key_s = String::from_str(key);
        let mut i: usize = 0;
        while i < self.entries.len()
            invariant
                self.wf(),
                key_s@ == key@,
                i <= self.entries.len(),
                forall|m: int| 0 <= m < i ==> #[trigger] self.entries@[m].0@ != key@,
            decreases self.entries.len() - i,
        {
            if self.entries[i].0 == key_s {
                proof {
                    lemma_count_at(self.entries@, key@, i as int);
                }
                return self.entries[i].1;
            }
            i = i + 1;
        }
        proof {
            lemma_count_absent(self.entries@, key@);
        }
        0
    }

    /// Adds `amount` to the count of `key`.
    pub fn add(&mut self, key: &str, amount: u64)
        requires
            old(self).wf(),
            old(self).count(key@) + amount <= u64::MAX,
        ensures
            final(self).wf(),
            final(self).count(key@) == old(self).count(key@) + amount,
            forall|k: Seq<char>| k != key@ ==> #[trigger] final(self).count(k) == old(self).count(k),
    {
        let key_s = String::from_str(key);
        let mut i: usize = 0;
        while i < self.entries.len()
            invariant
                self.entries@ == old(self).entries@,
                self.wf(),
                key_s@ == key@,
                self.count(key@) + amount <= u64::MAX,
                i <= self.entries.len(),
                forall|m: int| 0 <= m < i ==> #[trigger] self.entries@[m].0@ != key@,
            decreases self.entries.len() - i,
        {
            if self.entries[i].0 == key_s {
                let ghost old_entries = self.entries@;
                proof {
                    lemma_count_at(old_entries, key@, i as int);
                }
                let name = self.entries[i].0.clone();
                let v = self.entries[i].1;
                self.entries.set(i, (name, v + amount));
                proof {
                    let e = self.entries@[i as int];
                    assert(self.entries@ == old_entries.update(i as int, e));
                    assert forall|a: int, b: int| 0 <= a < b < self.entries@.len() implies
                        #[trigger] self.entries@[a].0@ != #[trigger] self.entries@[b].0@ by {
                        assert(old_entries[a].0@ != old_entries[b].0@);
                    }
                    lemma_count_at(self.entries@, key@, i as int);
                    assert forall|k: Seq<char>| k != key@ implies #[trigger] self.count(k) == old(self).count(k) by {
                        lemma_count_update(old_entries, i as int, e, k);
                    }
                }
                return;
            }
            i = i + 1;
        }
        let ghost old_entries = self.entries@;
        proof {
            lemma_count_absent(old_entries, key@);
        }
        self.entries.push((key_s, amount));
        proof {
            assert(self.entries@.drop_last() =~= old_entries);
            assert forall|a: int, b: int| 0 <= a < b < self.entries@.len() implies
                #[trigger] self.entries@[a].0@ != #[trigger] self.entries@[b].0@ by {
                if b == self.entries@.len() - 1 {
                    assert(old_entries[a].0@ != key@);
                } else {
                    assert(old_entries[a].0@ != old_entries[b].0@);
                }
            }
        }
    }
}

/// Request metrics of the gateway.
#[derive(Debug)]
pub struct GatewayMetrics {
    pub request_count: CounterMap,
    pub error_count: CounterMap,
    /// Summed latency per endpoint, in milliseconds.
    pub latency_sum: CounterMap,
    pub version_usage: CounterMap,
}

impl GatewayMetrics {
    /// The counters are well formed.
    pub open spec fn wf(&self) -> bool {
        self.request_count.wf() && self.error_count.wf() && self.latency_sum.wf() && self.version_usage.wf()
    }

    /// Empty metrics.
    pub fn new() -> (m: Self)
        ensures
            m.wf(),
            forall|k: Seq<char>| #[trigger] m.request_count.count(k) == 0,
            forall|k: Seq<char>| #[trigger] m.error_count.count(k) == 0,
            forall|k: Seq<char>| #[trigger] m.latency_sum.count(k) == 0,
            forall|k: Seq<char>| #[trigger] m.version_usage.count(k) == 0,
    {
        GatewayMetrics {
            request_count: CounterMap::new(),
            error_count: CounterMap::new(),
            latency_sum: CounterMap::new(),
            version_usage: CounterMap::new(),
        }
    }

    /// Counts a request to `endpoint` under API `version` that took `duration` milliseconds;
    /// a failed request also counts as an error of the endpoint.
    pub fn record_request(&mut self, endpoint: &str, version: &str, success: bool, duration: u64)
        requires
            old(self).wf(),
            old(self).request_count.count(endpoint@) < u64::MAX,
            old(self).version_usage.count(version@) < u64::MAX,
            old(self).latency_sum.count(endpoint@) + duration <= u64::MAX,
            !success ==> old(self).error_count.count(endpoint@) < u64::MAX,
        ensures
            final(self).wf(),
            final(self).request_count.count(endpoint@) == old(self).request_count.count(endpoint@) + 1,
            final(self).version_usage.count(version@) == old(self).version_usage.count(version@) + 1,
            final(self).latency_sum.count(endpoint@) == old(self).latency_sum.count(endpoint@) + duration,
            final(self).error_count.count(endpoint@) == old(self).error_count.count(endpoint@) + (if success { 0nat } else { 1nat }),
            forall|k: Seq<char>| k != endpoint@ ==> #[trigger] final(self).request_count.count(k) == old(self).request_count.count(k),
            forall|k: Seq<char>| k != endpoint@ ==> #[trigger] final(self).error_count.count(k) == old(self).error_count.count(k),
            forall|k: Seq<char>| k != version@ ==> #[trigger] final(self).version_usage.count(k) == old(self).version_usage.count(k),
            forall|k: Seq<char>| k != endpoint@ ==> #[trigger] final(self).latency_sum.count(k) == old(self).latency_sum.count(k),
    {
        self.request_count.add(endpoint, 1);
        self.version_usage.add(version, 1);
        self.latency_sum.add(endpoint, duration);
        if !success {
            self.error_count.add(endpoint, 1);
        }
    }
}

} // verus!

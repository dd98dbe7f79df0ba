//! Security monitoring: the alert log, threat detection over security counters, and the
//! alerts that detected threats raise.
use vstd::prelude::*;
use crate::cors::pair_views;
use crate::detection::keep_last;
use crate::gateway::{decimal_string, decimal_text};

verus! {

/// How serious an alert is.
#[derive(Debug, Clone, Copy, PartialEq, Eq, Structural)]
pub enum AlertSeverity {
    Low,
    Medium,
    High,
    Critical,
}

/// What an alert is about.
#[derive(Debug, Clone, Copy, PartialEq, Eq, Structural)]
pub enum AlertType {
    MEVDetected,
    SecurityBreach,
    PerformanceDegradation,
    SystemFailure,
    AnomalousActivity,
}

/// A security alert; `timestamp` is in milliseconds since the epoch.
#[derive(Debug, Clone)]
pub struct SecurityAlert {
    pub severity: AlertSeverity,
    pub alert_type: AlertType,
    pub message: String,
    pub details: Vec<(String, String)>,
    pub timestamp: i64,
}

/// Two alerts say the same.
pub open spec fn same_alert(a: SecurityAlert, b: SecurityAlert) -> bool {
    &&& a.severity == b.severity
    &&& a.alert_type == b.alert_type
    &&& a.message@ == b.message@
    &&& pair_views(a.details@) == pair_views(b.details@)
    &&& a.timestamp == b.timestamp
}

/// The most alerts the log keeps.
pub const ALERT_LOG_CAPACITY: usize = 1000;

/// A copy of an alert.
pub fn copy_alert(a: &SecurityAlert) -> (r: SecurityAlert)
    ensures
        same_alert(r, *a),
{
    let mut details: Vec<(String, String)> = Vec::new();
    let mut i: usize = 0;
    while i < a.details.len()
        invariant
            i <= a.details@.len(),
            pair_views(details@) == pair_views(a.details@.subrange(0, i as int)),
        decreases a.details@.len() - i,
    {
        let ghost before = details@;
        let k = String::from_str(a.details[i].0.as_str());
        let v = String::from_str(a.details[i].1.as_str());
        assert(k@ == a.details@[i as int].0@ && v@ == a.details@[i as int].1@);
        details.push((k, v));
        assert(pair_views(details@) =~= pair_views(before).push((a.details@[i as int].0@, a.details@[i as int].1@)));
        assert(pair_views(a.details@.subrange(0, i + 1)) =~= pair_views(a.details@.subrange(0, i as int)).push(
            (a.details@[i as int].0@, a.details@[i as int].1@),
        ));
        i = i + 1;
    }
    assert(a.details@.subrange(0, a.details@.len() as int) =~= a.details@);
    SecurityAlert {
        severity: a.severity,
        alert_type: a.alert_type,
        message: String::from_str(a.message.as_str()),
        details,
        timestamp: a.timestamp,
    }
}

/// Keeping the last `n` after a push of what was already cut to `n` is keeping the last
/// `n` of the whole.
proof fn lemma_keep_last_push<A>(s: Seq<A>, a: A, n: nat)
    requires
        n > 0,
    ensures
        keep_last(keep_last(s, n).push(a), n) == keep_last(s.push(a), n),
{
    if s.len() > n {
        assert(keep_last(s, n).push(a).subrange(1, n + 1int) =~= s.push(a).subrange(s.len() + 1 - n, s.len() + 1int));
    } else if s.len() == n {
        assert(s.push(a).subrange(1, n + 1int) =~= s.push(a).subrange(s.len() + 1 - n, s.len() + 1int));
    }
}

/// The alert log: the alerts raised, oldest first, at most `ALERT_LOG_CAPACITY` of them.
pub struct AlertSystem {
    pub alerts: Vec<SecurityAlert>,
}

impl AlertSystem {
    /// An empty log.
    pub fn new() -> (s: Self)
        ensures
            s.alerts@.len() == 0,
    {
        AlertSystem { alerts: Vec::new() }
    }

    /// Stores an alert, dropping the oldest ones beyond the capacity. Running the
    /// handlers on the alert is the caller's part.
    pub fn store_alert(&mut self, alert: SecurityAlert)
        ensures
            final(self).alerts@ == keep_last(old(self).alerts@.push(alert), ALERT_LOG_CAPACITY as nat),
            final(self).alerts@.len() <= ALERT_LOG_CAPACITY,
    {
        let ghost full = self.alerts@.push(alert);
        self.alerts.push(alert);
        assert(full.subrange(0, full.len() as int) =~= full);
        while self.alerts.len() > ALERT_LOG_CAPACITY
            invariant
                full.len() > ALERT_LOG_CAPACITY ==> self.alerts@.len() >= ALERT_LOG_CAPACITY,
                full.len() <= ALERT_LOG_CAPACITY ==> self.alerts@ == full,
                self.alerts@.len() <= full.len(),
                self.alerts@ == full.subrange(full.len() - self.alerts@.len(), full.len() as int),
            decreases self.alerts@.len(),
        {
            let ghost before = self.alerts@;
            self.alerts.remove(0);
            assert(self.alerts@ =~= full.subrange(full.len() - self.alerts@.len(), full.len() as int));
        }

    }

    /// Stores alerts in order, as `store_alert` one after the other.
    pub fn send_alerts(&mut self, alerts: Vec<SecurityAlert>)
        ensures
            alerts@.len() == 0 ==> final(self).alerts@ == old(self).alerts@,
            alerts@.len() > 0 ==> final(self).alerts@ == keep_last(
                old(self).alerts@ + alerts@,
                ALERT_LOG_CAPACITY as nat,
            ) && final(self).alerts@.len() <= ALERT_LOG_CAPACITY,
    {
        let ghost start = self.alerts@;
        let ghost all = alerts@;
        let n = alerts.len();
        let mut rest = alerts;
        let mut i: usize = 0;
        while rest.len() > 0
            invariant
                n == all.len(),
                i + rest@.len() == all.len(),
                rest@ == all.subrange(i as int, all.len() as int),
                i == 0 ==> self.alerts@ == start,
                i > 0 ==> self.alerts@ == keep_last(start + all.subrange(0, i as int), ALERT_LOG_CAPACITY as nat),
            decreases rest@.len(),
        {
            let a = rest.remove(0);
            assert(a == all[i as int]);
            self.store_alert(a);
            proof {
                assert(start + all.subrange(0, i + 1) =~= (start + all.subrange(0, i as int)).push(a));
                if i > 0 {
                    lemma_keep_last_push(start + all.subrange(0, i as int), a, ALERT_LOG_CAPACITY as nat);
                }
            }
            i = i + 1;
            assert(rest@ =~= all.subrange(i as int, all.len() as int));
        }
        assert(all.subrange(0, all.len() as int) =~= all);
    }

    /// Copies of the last `count` alerts (all of them where there are fewer), oldest first.
    pub fn get_recent_alerts(&self, count: usize) -> (r: Vec<SecurityAlert>)
        ensures
            r@.len() == if count < self.alerts@.len() {
                count as nat
            } else {
                self.alerts@.len()
            },
            forall|i: int|
                0 <= i < r@.len() ==> same_alert(
                    #[trigger] r@[i],
                    self.alerts@[self.alerts@.len() - r@.len() + i],
                ),
    {
        let start = if count < self.alerts.len() {
            self.alerts.len() - count
        } else {
            0
        };
        let mut r: Vec<SecurityAlert> = Vec::new();
        let mut i = start;
        while i < self.alerts.len()
            invariant
                start <= i <= self.alerts@.len(),
                start == if count < self.alerts@.len() {
                    self.alerts@.len() - count
                } else {
                    0
                },
                r@.len() == i - start,
                forall|k: int| 0 <= k < r@.len() ==> same_alert(#[trigger] r@[k], self.alerts@[start + k]),
            decreases self.alerts@.len() - i,
        {
            r.push(copy_alert(&self.alerts[i]));
            i = i + 1;
        }
        r
    }

    /// Empties the log.
    pub fn clear_alerts(&mut self)
        ensures
            final(self).alerts@.len() == 0,
    {
        self.alerts = Vec::new();
    }
}

/// Security counters over a monitoring period.
#[derive(Debug, Clone, Copy)]
pub struct SecurityMetrics {
    pub failed_decryptions: u64,
    pub suspicious_transactions: u64,
    pub rate_limit_violations: u64,
    pub authentication_failures: u64,
    pub unusual_gas_patterns: u64,
}

/// How serious a threat is, ordered from `Low` to `Critical`.
#[derive(Debug, Clone, Copy, PartialEq, Eq, Structural)]
pub enum ThreatSeverity {
    Low,
    Medium,
    High,
    Critical,
}

/// The rank of a threat severity: 1 for `Low` up to 4 for `Critical`.
pub open spec fn severity_rank(s: ThreatSeverity) -> int {
    match s {
        ThreatSeverity::Low => 1,
        ThreatSeverity::Medium => 2,
        ThreatSeverity::High => 3,
        ThreatSeverity::Critical => 4,
    }
}

impl ThreatSeverity {
    /// The rank of the severity: 1 for `Low` up to 4 for `Critical`.
    pub fn rank(&self) -> (r: u8)
        ensures
            r == severity_rank(*self),
    {
        match self {
            ThreatSeverity::Low => 1,
            ThreatSeverity::Medium => 2,
            ThreatSeverity::High => 3,
            ThreatSeverity::Critical => 4,
        }
    }
}

/// A detected threat.
#[derive(Debug, Clone)]
pub struct Threat {
    pub severity: ThreatSeverity,
    pub threat_type: String,
    pub description: String,
}

/// A threat's parts as texts.
pub open spec fn threat_view(t: Threat) -> (ThreatSeverity, Seq<char>, Seq<char>) {
    (t.severity, t.threat_type@, t.description@)
}

/// The threats that counters show, in this order: more than 10 failed decryptions
/// (high), more than 5 suspicious transactions (medium), more than 100 rate-limit
/// violations (low).
pub open spec fn threats_of(m: SecurityMetrics) -> Seq<(ThreatSeverity, Seq<char>, Seq<char>)> {
    (if m.failed_decryptions > 10 {
        seq![
            (
                ThreatSeverity::High,
                "DecryptionFailure"@,
                "High number of failed decryptions: "@ + decimal_text(m.failed_decryptions as nat),
            ),
        ]
    } else {
        Seq::empty()
    }) + (if m.suspicious_transactions > 5 {
        seq![
            (
                ThreatSeverity::Medium,
                "SuspiciousActivity"@,
                "Suspicious transactions detected: "@ + decimal_text(m.suspicious_transactions as nat),
            ),
        ]
    } else {
        Seq::empty()
    }) + (if m.rate_limit_violations > 100 {
        seq![
            (
                ThreatSeverity::Low,
                "RateLimitViolation"@,
                "Rate limit violations: "@ + decimal_text(m.rate_limit_violations as nat),
            ),
        ]
    } else {
        Seq::empty()
    })
}

/// The texts of a list of threats.
pub open spec fn threat_views(ts: Seq<Threat>) -> Seq<(ThreatSeverity, Seq<char>, Seq<char>)> {
    Seq::new(ts.len(), |i: int| threat_view(ts[i]))
}

/// A threat with a message made of `prefix` and the decimal `n`.
fn threat_with(severity: ThreatSeverity, kind: &str, prefix: &str, n: u64) -> (t: Threat)
    ensures
        threat_view(t) == (severity, kind@, prefix@ + decimal_text(n as nat)),
{
    let mut description = String::from_str(prefix);
    let digits = decimal_string(n);
    description.append(digits.as_str());
    Threat { severity, threat_type: String::from_str(kind), description }
}

/// Detects threats in security counters.
#[derive(Debug, Clone, Copy)]
pub struct ThreatDetector;

impl ThreatDetector {
    /// The threats that the counters show.
    pub fn analyze_metrics(&self, metrics: &SecurityMetrics) -> (r: Vec<Threat>)
        ensures
            threat_views(r@) == threats_of(*metrics),
    {
        let mut threats: Vec<Threat> = Vec::new();
        if metrics.failed_decryptions > 10 {
            threats.push(
                threat_with(
                    ThreatSeverity::High,
                    "DecryptionFailure",
                    "High number of failed decryptions: ",
                    metrics.failed_decryptions,
                ),
            );
        }
        let ghost a = threat_views(threats@);
        if metrics.suspicious_transactions > 5 {
            threats.push(
                threat_with(
                    ThreatSeverity::Medium,
                    "SuspiciousActivity",
                    "Suspicious transactions detected: ",
                    metrics.suspicious_transactions,
                ),
            );
        }
        let ghost b = threat_views(threats@);
        assert(b =~= a + (if metrics.suspicious_transactions > 5 {
            seq![
                (
                    ThreatSeverity::Medium,
                    "SuspiciousActivity"@,
                    "Suspicious transactions detected: "@ + decimal_text(metrics.suspicious_transactions as nat),
                ),
            ]
        } else {
            Seq::empty()
        }));
        if metrics.rate_limit_violations > 100 {
            threats.push(
                threat_with(
                    ThreatSeverity::Low,
                    "RateLimitViolation",
                    "Rate limit violations: ",
                    metrics.rate_limit_violations,
                ),
            );
        }
        assert(threat_views(threats@) =~= threats_of(*metrics));
        threats
    }
}

/// The alert a threat raises: its severity, anomalous activity, its description as the
/// message, no details, at `now`.
pub open spec fn alert_of_threat(t: Threat, now: i64, a: SecurityAlert) -> bool {
    &&& severity_rank(t.severity) == match a.severity {
        AlertSeverity::Low => 1int,
        AlertSeverity::Medium => 2,
        AlertSeverity::High => 3,
        AlertSeverity::Critical => 4,
    }
    &&& a.alert_type == AlertType::AnomalousActivity
    &&& a.message@ == t.description@
    &&& a.details@.len() == 0
    &&& a.timestamp == now
}

/// The threats of high severity or above, in order.
pub open spec fn serious_threats(ts: Seq<Threat>) -> Seq<Threat>
    decreases ts.len(),
{
    if ts.len() == 0 {
        Seq::empty()
    } else if severity_rank(ts.last().severity) >= 3 {
        serious_threats(ts.drop_last()).push(ts.last())
    } else {
        serious_threats(ts.drop_last())
    }
}

/// The alerts that the monitor raises for detected threats at `now`: one for each
/// threat of high severity or above, in order.
pub fn threat_alerts(threats: Vec<Threat>, now: i64) -> (r: Vec<SecurityAlert>)
    ensures
        r@.len() == serious_threats(threats@).len(),
        forall|i: int| 0 <= i < r@.len() ==> alert_of_threat(serious_threats(threats@)[i], now, #[trigger] r@[i]),
{
    let mut r: Vec<SecurityAlert> = Vec::new();
    let mut i: usize = 0;
    while i < threats.len()
        invariant
            i <= threats@.len(),
            r@.len() == serious_threats(threats@.subrange(0, i as int)).len(),
            forall|k: int|
                0 <= k < r@.len() ==> alert_of_threat(
                    serious_threats(threats@.subrange(0, i as int))[k],
                    now,
                    #[trigger] r@[k],
                ),
        decreases threats@.len() - i,
    {
        let ghost before = threats@.subrange(0, i as int);
        let ghost after = threats@.subrange(0, i + 1);
        assert(after.drop_last() =~= before);
        let t = &threats[i];
        if t.severity.rank() >= 3 {
            let severity = match t.severity {
                ThreatSeverity::Low => AlertSeverity::Low,
                ThreatSeverity::Medium => AlertSeverity::Medium,
                ThreatSeverity::High => AlertSeverity::High,
                ThreatSeverity::Critical => AlertSeverity::Critical,
            };
            r.push(
                SecurityAlert {
                    severity,
                    alert_type: AlertType::AnomalousActivity,
                    message: String::from_str(t.description.as_str()),
                    details: Vec::new(),
                    timestamp: now,
                },
            );
        }
        i = i + 1;
    }
    assert(threats@.subrange(0, threats@.len() as int) =~= threats@);
    r
}

} // verus!

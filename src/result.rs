//! Attempt outcomes and their reduction into one summary record per target.
use vstd::prelude::*;

verus! {

/// What is probed: a TCP port of a host, or the host by ICMP echo.
#[derive(PartialEq, Eq, Structural, Clone, Copy, Debug)]
pub enum TestKind {
    Tcp,
    Icmp,
}

impl TestKind {
    /// The kind's name in reports: `tcp` or `icmp`.
    pub fn as_text(&self) -> (r: &'static str)
        ensures
            r@ == test_kind_text(*self),
    {
        match self {
            TestKind::Tcp => "tcp",
            TestKind::Icmp => "icmp",
        }
    }
}

pub open spec fn test_kind_text(k: TestKind) -> Seq<char> {
    match k {
        TestKind::Tcp => "tcp"@,
        TestKind::Icmp => "icmp"@,
    }
}

/// The classification of a target by its share of successful attempts.
#[derive(PartialEq, Eq, Structural, Clone, Copy, Debug)]
pub enum Status {
    Up,
    Down,
    Partial,
}

/// `Up` when every attempt succeeded, `Down` when none did, else `Partial`.
pub open spec fn status_for(successful: u32, attempts: u32) -> Status {
    if successful == attempts {
        Status::Up
    } else if successful == 0 {
        Status::Down
    } else {
        Status::Partial
    }
}

pub open spec fn status_text(s: Status) -> Seq<char> {
    match s {
        Status::Up => "up"@,
        Status::Down => "down"@,
        Status::Partial => "partial"@,
    }
}

impl Status {
    /// The status's name in reports: `up`, `down` or `partial`.
    pub fn as_text(&self) -> (r: &'static str)
        ensures
            r@ == status_text(*self),
    {
        match self {
            Status::Up => "up",
            Status::Down => "down",
            Status::Partial => "partial",
        }
    }

    /// The marker that starts a target's line in the human summary.
    pub fn icon(&self) -> (r: &'static str)
        ensures
            r@ == status_icon(*self),
    {
        match self {
            Status::Up => "✅",
            Status::Down => "❌",
            Status::Partial => "⚠️",
        }
    }
}

pub open spec fn status_icon(s: Status) -> Seq<char> {
    match s {
        Status::Up => "✅"@,
        Status::Down => "❌"@,
        Status::Partial => "⚠️"@,
    }
}

/// Computes the status for `successful` of `attempts` attempts.
pub fn classify(successful: u32, attempts: u32) -> (r: Status)
    ensures
        r == status_for(successful, attempts),
{
    if successful == attempts {
        Status::Up
    } else if successful == 0 {
        Status::Down
    } else {
        Status::Partial
    }
}

/// Why an attempt, or a whole probe, failed. The detail is the transport's
/// own description of the error.
#[derive(PartialEq, Eq, Debug)]
pub enum ProbeError {
    DnsResolutionFailed,
    DnsError(String),
    ConnectionError(String),
    Timeout,
    PingError(String),
    IcmpClientError(String),
}

/// The error tag as it appears in reports.
pub open spec fn error_text(e: ProbeError) -> Seq<char> {
    match e {
        ProbeError::DnsResolutionFailed => "dns_resolution_failed"@,
        ProbeError::DnsError(d) => "dns_error: "@ + d@,
        ProbeError::ConnectionError(d) => "connection_error: "@ + d@,
        ProbeError::Timeout => "timeout"@,
        ProbeError::PingError(d) => "ping_error: "@ + d@,
        ProbeError::IcmpClientError(d) => "icmp_client_error: "@ + d@
            + " (try running as root/admin)"@,
    }
}

impl ProbeError {
    /// A copy of this error.
    pub fn duplicate(&self) -> (r: ProbeError)
        ensures
            r == *self,
    {
        match self {
            ProbeError::DnsResolutionFailed => ProbeError::DnsResolutionFailed,
            ProbeError::DnsError(d) => ProbeError::DnsError(d.clone()),
            ProbeError::ConnectionError(d) => ProbeError::ConnectionError(d.clone()),
            ProbeError::Timeout => ProbeError::Timeout,
            ProbeError::PingError(d) => ProbeError::PingError(d.clone()),
            ProbeError::IcmpClientError(d) => ProbeError::IcmpClientError(d.clone()),
        }
    }

    /// The error tag as it appears in reports, such as `timeout` or
    /// `connection_error: Connection refused (os error 111)`.
    pub fn as_text(&self) -> (r: String)
        ensures
            r@ == error_text(*self),
    {
        match self {
            ProbeError::DnsResolutionFailed => String::from_str("dns_resolution_failed"),
            ProbeError::DnsError(d) => String::from_str("dns_error: ").concat(d.as_str()),
            ProbeError::ConnectionError(d) => String::from_str("connection_error: ").concat(
                d.as_str(),
            ),
            ProbeError::Timeout => String::from_str("timeout"),
            ProbeError::PingError(d) => String::from_str("ping_error: ").concat(d.as_str()),
            ProbeError::IcmpClientError(d) => String::from_str("icmp_client_error: ").concat(
                d.as_str(),
            ).concat(" (try running as root/admin)"),
        }
    }
}

/// The outcome of one attempt: success after a number of milliseconds, or
/// failure with its error.
#[derive(PartialEq, Eq, Debug)]
pub enum AttemptOutcome {
    Success(u128),
    Failure(ProbeError),
}

/// The latencies of the successful attempts, in attempt order.
pub open spec fn success_times(os: Seq<AttemptOutcome>) -> Seq<u128>
    decreases os.len(),
{
    if os.len() == 0 {
        Seq::empty()
    } else {
        match os.last() {
            AttemptOutcome::Success(t) => success_times(os.drop_last()).push(t),
            AttemptOutcome::Failure(_) => success_times(os.drop_last()),
        }
    }
}

/// The error of the last failed attempt, if any failed.
pub open spec fn last_failure(os: Seq<AttemptOutcome>) -> Option<ProbeError>
    decreases os.len(),
{
    if os.len() == 0 {
        None
    } else {
        match os.last() {
            AttemptOutcome::Success(_) => last_failure(os.drop_last()),
            AttemptOutcome::Failure(e) => Some(e),
        }
    }
}

/// The sum of a sequence of latencies.
pub open spec fn sum_times(s: Seq<u128>) -> int
    decreases s.len(),
{
    if s.len() == 0 {
        0
    } else {
        sum_times(s.drop_last()) + s.last()
    }
}

/// The summary of all attempts against one target within one cycle.
#[derive(Debug)]
pub struct HostResult {
    pub host: String,
    pub port: Option<u16>,
    pub test_type: TestKind,
    pub attempts: u32,
    pub successful: u32,
    pub response_times: Vec<u128>,
    pub status: Status,
    pub error: Option<ProbeError>,
}

impl HostResult {
    /// The record's invariants: the successful attempts are counted by their
    /// latencies, the status follows from the counts, and an error is kept
    /// exactly when no attempt succeeded.
    pub open spec fn wf(&self) -> bool {
        &&& self.attempts > 0
        &&& self.successful <= self.attempts
        &&& self.response_times@.len() == self.successful
        &&& self.status == status_for(self.successful, self.attempts)
        &&& (self.error is Some <==> self.successful == 0)
    }

    /// The record of a target whose probe stopped before any attempt: no
    /// attempt succeeded and `error` says why.
    pub fn failed(host: String, port: Option<u16>, test_type: TestKind, attempts: u32, error: ProbeError) -> (r: HostResult)
        requires
            attempts > 0,
        ensures
            r.wf(),
            r.host == host,
            r.port == port,
            r.test_type == test_type,
            r.attempts == attempts,
            r.successful == 0,
            r.response_times@ == Seq::<u128>::empty(),
            r.status == Status::Down,
            r.error == Some(error),
    {
        HostResult {
            host,
            port,
            test_type,
            attempts,
            successful: 0,
            response_times: Vec::new(),
            status: Status::Down,
            error: Some(error),
        }
    }

    /// The share of successful attempts, as the pair (successful, attempts).
    pub fn success_ratio(&self) -> (r: (u32, u32))
        ensures
            r == (self.successful, self.attempts),
    {
        (self.successful, self.attempts)
    }

    /// The sum of the successful latencies and their number, from which the
    /// average latency is their quotient. `None` when no attempt succeeded,
    /// or when the sum does not fit in a `u128`.
    pub fn average_parts(&self) -> (r: Option<(u128, u32)>)
        requires
            self.wf(),
        ensures
            r is Some <==> (self.successful > 0 && sum_times(self.response_times@) <= u128::MAX),
            r matches Some((sum, n)) ==> sum == sum_times(self.response_times@) && n == self.successful
                && n == self.response_times@.len(),
    {
        if self.successful == 0 {
            return None;
        }
        let mut total: u128 = 0;
        let mut i: usize = 0;
        while i < self.response_times.len()
            invariant
                i <= self.response_times@.len(),
                total == sum_times(self.response_times@.take(i as int)),
            decreases self.response_times.len() - i,
        {
            proof {
                assert(self.response_times@.take(i as int + 1).drop_last() == self.response_times@.take(
                    i as int,
                ));
                lemma_sum_prefix(self.response_times@, i as int + 1);
            }
            let t = self.response_times[i];
            if total > u128::MAX - t {
                return None;
            }
            total = total + t;
            i = i + 1;
        }
        proof {
            assert(self.response_times@.take(i as int) == self.response_times@);
        }
        Some((total, self.successful))
    }
}

proof fn lemma_sum_prefix(s: Seq<u128>, k: int)
    requires
        0 <= k <= s.len(),
    ensures
        sum_times(s.take(k)) <= sum_times(s),
    decreases s.len(),
{
    if k < s.len() {
        assert(s.drop_last().take(k) == s.take(k));
        lemma_sum_prefix(s.drop_last(), k);
    } else {
        assert(s.take(k) == s);
    }
}

/// The running reduction of a probe's attempt outcomes.
pub struct Tally {
    pub successful: u32,
    pub response_times: Vec<u128>,
    pub last_error: Option<ProbeError>,
}

impl Tally {
    /// The tally is the reduction of exactly the outcomes `os`.
    pub open spec fn reduces(&self, os: Seq<AttemptOutcome>) -> bool {
        &&& self.response_times@ == success_times(os)
        &&& self.successful == success_times(os).len()
        &&& self.last_error == last_failure(os)
    }

    /// The tally of no attempt.
    pub fn new() -> (r: Tally)
        ensures
            r.reduces(Seq::empty()),
    {
        Tally { successful: 0, response_times: Vec::new(), last_error: None }
    }

    /// Adds one attempt's outcome: a success counts and keeps its latency, a
    /// failure becomes the latest error.
    pub fn record(&mut self, outcome: AttemptOutcome)
        requires
            old(self).successful < u32::MAX,
        ensures
            forall|os: Seq<AttemptOutcome>|
                old(self).reduces(os) ==> #[trigger] final(self).reduces(os.push(outcome)),
            final(self).successful == old(self).successful + if outcome is Success {
                1int
            } else {
                0int
            },
    {
        let ghost o = outcome;
        match outcome {
            AttemptOutcome::Success(t) => {
                self.successful = self.successful + 1;
                self.response_times.push(t);
            },
            AttemptOutcome::Failure(e) => {
                self.last_error = Some(e);
            },
        }
        proof {
            assert forall|os: Seq<AttemptOutcome>| old(self).reduces(os) implies #[trigger] self.reduces(
                os.push(o),
            ) by {
                assert(os.push(o).drop_last() == os);
            }
        }
    }

    /// The summary record of `attempts` attempts whose outcomes this tally
    /// reduced.
    pub fn finish(self, host: String, port: Option<u16>, test_type: TestKind, attempts: u32) -> (r: HostResult)
        requires
            attempts > 0,
            self.successful <= attempts,
            self.response_times@.len() == self.successful,
            self.successful == 0 ==> self.last_error is Some,
        ensures
            r.wf(),
            r.host == host,
            r.port == port,
            r.test_type == test_type,
            r.attempts == attempts,
            r.successful == self.successful,
            r.response_times@ == self.response_times@,
            r.status == status_for(self.successful, attempts),
            r.error == if self.successful == 0 {
                self.last_error
            } else {
                None
            },
    {
        let status = classify(self.successful, attempts);
        let error = if self.successful == 0 {
            self.last_error
        } else {
            None
        };
        HostResult {
            host,
            port,
            test_type,
            attempts,
            successful: self.successful,
            response_times: self.response_times,
            status,
            error,
        }
    }
}

/// When every attempt is either a success or a failure, no success means
/// some failure, so a last error exists.
pub proof fn lemma_no_success_has_failure(os: Seq<AttemptOutcome>)
    requires
        os.len() > 0,
        success_times(os).len() == 0,
    ensures
        last_failure(os) is Some,
{
    assert(!(os.last() is Success));
}

/// The success count never exceeds the number of attempts.
pub proof fn lemma_success_count(os: Seq<AttemptOutcome>)
    ensures
        success_times(os).len() <= os.len(),
    decreases os.len(),
{
    if os.len() > 0 {
        lemma_success_count(os.drop_last());
    }
}

/// Reduces the outcomes of a probe's attempts into its summary record.
pub fn aggregate(host: String, port: Option<u16>, test_type: TestKind, outcomes: &Vec<AttemptOutcome>) -> (r: HostResult)
    requires
        0 < outcomes@.len() <= u32::MAX,
    ensures
        r.wf(),
        r.host == host,
        r.port == port,
        r.test_type == test_type,
        r.attempts == outcomes@.len(),
        r.response_times@ == success_times(outcomes@),
        r.successful == success_times(outcomes@).len(),
        r.status == status_for(r.successful, r.attempts),
        r.error == if r.successful == 0 {
            last_failure(outcomes@)
        } else {
            None
        },
{
    let mut tally = Tally::new();
    let mut i: usize = 0;
    while i < outcomes.len()
        invariant
            i <= outcomes@.len() <= u32::MAX,
            tally.reduces(outcomes@.take(i as int)),
        decreases outcomes.len() - i,
    {
        proof {
            lemma_success_count(outcomes@.take(i as int));
            assert(outcomes@.take(i as int + 1) == outcomes@.take(i as int).push(outcomes@[i as int]));
        }
        let o = match &outcomes[i] {
            AttemptOutcome::Success(t) => AttemptOutcome::Success(*t),
            AttemptOutcome::Failure(e) => AttemptOutcome::Failure(e.duplicate()),
        };
        tally.record(o);
        i = i + 1;
    }
    proof {
        assert(outcomes@.take(i as int) == outcomes@);
        lemma_success_count(outcomes@);
        if tally.successful == 0 {
            lemma_no_success_has_failure(outcomes@);
        }
    }
    tally.finish(host, port, test_type, outcomes.len() as u32)
}

/// Status classification: a record is `up` exactly when every attempt
/// succeeded, `down` exactly when none did, and `partial` otherwise.
pub proof fn law_status_classification(r: &HostResult)
    requires
        r.wf(),
    ensures
        (r.status == Status::Up) <==> (r.successful == r.attempts),
        (r.status == Status::Down) <==> (r.successful == 0),
        (r.status == Status::Partial) <==> (0 < r.successful < r.attempts),
{
}

/// A record carries an error exactly when no attempt succeeded.
pub proof fn law_error_iff_no_success(r: &HostResult)
    requires
        r.wf(),
    ensures
        (r.error is Some) <==> (r.successful == 0),
{
}

} // verus!

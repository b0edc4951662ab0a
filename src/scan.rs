//! Configuration checks, target expansion and the scan cycle's scheduling.
use vstd::prelude::*;
use crate::ports::decimal;
use crate::ports::decimal_text;
use crate::result::HostResult;
use crate::result::TestKind;

verus! {

/// Milliseconds slept between two cycles in repeating mode.
pub const CYCLE_INTERVAL_MS: u64 = 5000;

/// One target of a cycle: a host with a port for TCP, a host alone for ICMP.
pub struct ProbeTarget {
    pub host: String,
    pub port: Option<u16>,
    pub kind: TestKind,
}

impl ProbeTarget {
    pub open spec fn is_tcp(&self, host: Seq<char>, port: u16) -> bool {
        &&& self.host@ == host
        &&& self.port == Some(port)
        &&& self.kind == TestKind::Tcp
    }

    pub open spec fn is_icmp(&self, host: Seq<char>) -> bool {
        &&& self.host@ == host
        &&& self.port is None
        &&& self.kind == TestKind::Icmp
    }

    /// A TCP target carries a port, an ICMP target none.
    pub open spec fn wf(&self) -> bool {
        (self.kind == TestKind::Tcp) <==> (self.port is Some)
    }
}

/// Why a configuration is refused before any cycle runs.
#[derive(PartialEq, Eq, Structural, Clone, Copy, Debug)]
pub enum ConfigError {
    NoHosts,
    NoPortsAndNoPing,
    ZeroAttempts,
}

pub open spec fn config_message(e: ConfigError) -> Seq<char> {
    match e {
        ConfigError::NoHosts => "You must provide at least one host!"@,
        ConfigError::NoPortsAndNoPing => "You must provide at least one port or enable --ping!"@,
        ConfigError::ZeroAttempts => "The attempt count must be at least 1!"@,
    }
}

impl ConfigError {
    /// The message shown to the user.
    pub fn message(&self) -> (r: &'static str)
        ensures
            r@ == config_message(*self),
    {
        match self {
            ConfigError::NoHosts => "You must provide at least one host!",
            ConfigError::NoPortsAndNoPing => "You must provide at least one port or enable --ping!",
            ConfigError::ZeroAttempts => "The attempt count must be at least 1!",
        }
    }
}

/// The checks made before the first cycle: at least one host, something to
/// probe it with, and at least one attempt per target. The first failing
/// check in that order is reported.
pub fn validate(hosts: usize, ports: usize, ping: bool, count: u32) -> (r: Result<(), ConfigError>)
    ensures
        r == (if hosts == 0 {
            Err(ConfigError::NoHosts)
        } else if ports == 0 && !ping {
            Err(ConfigError::NoPortsAndNoPing)
        } else if count == 0 {
            Err(ConfigError::ZeroAttempts)
        } else {
            Ok(())
        }),
{
    if hosts == 0 {
        Err(ConfigError::NoHosts)
    } else if ports == 0 && !ping {
        Err(ConfigError::NoPortsAndNoPing)
    } else if count == 0 {
        Err(ConfigError::ZeroAttempts)
    } else {
        Ok(())
    }
}

/// The number of targets of one cycle.
pub open spec fn target_count(hosts: nat, ports: nat, ping: bool) -> nat {
    hosts * ports + if ping {
        hosts
    } else {
        0
    }
}

/// The targets of one cycle: every host with every port for TCP, hosts in the
/// outer loop and ports in the inner one; then, when `ping` is set, every
/// host for ICMP, in input order.
pub fn expand_targets(hosts: &Vec<String>, ports: &Vec<u16>, ping: bool) -> (r: Vec<ProbeTarget>)
    requires
        target_count(hosts@.len(), ports@.len(), ping) <= usize::MAX,
    ensures
        r@.len() == target_count(hosts@.len(), ports@.len(), ping),
        forall|i: int, j: int|
            0 <= i < hosts@.len() && 0 <= j < ports@.len() ==> (#[trigger] r@[i * ports@.len() + j]).is_tcp(
                hosts@[i]@,
                #[trigger] ports@[j],
            ),
        ping ==> forall|i: int|
            0 <= i < hosts@.len() ==> (#[trigger] r@[hosts@.len() * ports@.len() + i]).is_icmp(
                hosts@[i]@,
            ),
        forall|k: int| 0 <= k < r@.len() ==> (#[trigger] r@[k]).wf(),
{
    let n = hosts.len();
    let m = ports.len();
    let ghost nm = n * m;
    proof {
        assert(n * m <= target_count(n as nat, m as nat, ping));
    }
    let mut r: Vec<ProbeTarget> = Vec::new();
    let mut i: usize = 0;
    while i < n
        invariant
            n == hosts@.len(),
            m == ports@.len(),
            nm == n * m,
            nm <= usize::MAX,
            i <= n,
            r@.len() == i * m,
            forall|a: int, b: int|
                0 <= a < i && 0 <= b < m ==> (#[trigger] r@[a * m + b]).is_tcp(hosts@[a]@, #[trigger] ports@[b]),
            forall|k: int| 0 <= k < r@.len() ==> (#[trigger] r@[k]).wf(),
        decreases n - i,
    {
        proof {
            assert(i * m + m == (i + 1) * m) by (nonlinear_arith);
            assert((i + 1) * m <= n * m) by (nonlinear_arith)
                requires
                    i + 1 <= n,
            ;
        }
        let mut j: usize = 0;
        while j < m
            invariant
                n == hosts@.len(),
                m == ports@.len(),
                i < n,
                j <= m,
                (i + 1) * m <= usize::MAX,
                r@.len() == i * m + j,
                forall|a: int, b: int|
                    0 <= a < i && 0 <= b < m ==> (#[trigger] r@[a * m + b]).is_tcp(
                        hosts@[a]@,
                        #[trigger] ports@[b],
                    ),
                forall|b: int| 0 <= b < j ==> (#[trigger] r@[i * m + b]).is_tcp(hosts@[i as int]@, ports@[b]),
                forall|k: int| 0 <= k < r@.len() ==> (#[trigger] r@[k]).wf(),
            decreases m - j,
        {
            proof {
                assert(i * m + j < (i + 1) * m) by (nonlinear_arith)
                    requires
                        j < m,
                ;
            }
            let t = ProbeTarget { host: hosts[i].clone(), port: Some(ports[j]), kind: TestKind::Tcp };
            let ghost before = r@;
            r.push(t);
            proof {
                assert forall|a: int, b: int|
                    0 <= a < i && 0 <= b < m implies (#[trigger] r@[a * m + b]).is_tcp(
                    hosts@[a]@,
                    #[trigger] ports@[b],
                ) by {
                    assert(a * m + b < i * m) by (nonlinear_arith)
                        requires
                            a < i,
                            b < m,
                    ;
                    assert(r@[a * m + b] == before[a * m + b]);
                }
            }
            j = j + 1;
        }
        proof {
            assert forall|a: int, b: int|
                0 <= a < i + 1 && 0 <= b < m implies (#[trigger] r@[a * m + b]).is_tcp(
                hosts@[a]@,
                #[trigger] ports@[b],
            ) by {
                if a == i {
                    assert(r@[i * m + b].is_tcp(hosts@[i as int]@, ports@[b]));
                }
            }
        }
        i = i + 1;
    }
    if ping {
        let mut h: usize = 0;
        while h < n
            invariant
                n == hosts@.len(),
                m == ports@.len(),
                nm == n * m,
                nm + n <= usize::MAX,
                h <= n,
                r@.len() == nm + h,
                forall|a: int, b: int|
                    0 <= a < n && 0 <= b < m ==> (#[trigger] r@[a * m + b]).is_tcp(
                        hosts@[a]@,
                        #[trigger] ports@[b],
                    ),
                forall|a: int| 0 <= a < h ==> (#[trigger] r@[nm + a]).is_icmp(hosts@[a]@),
                forall|k: int| 0 <= k < r@.len() ==> (#[trigger] r@[k]).wf(),
            decreases n - h,
        {
            let t = ProbeTarget { host: hosts[h].clone(), port: None, kind: TestKind::Icmp };
            let ghost before = r@;
            r.push(t);
            proof {
                assert forall|a: int, b: int|
                    0 <= a < n && 0 <= b < m implies (#[trigger] r@[a * m + b]).is_tcp(
                    hosts@[a]@,
                    #[trigger] ports@[b],
                ) by {
                    assert(a * m + b < n * m) by (nonlinear_arith)
                        requires
                            a < n,
                            b < m,
                    ;
                    assert(r@[a * m + b] == before[a * m + b]);
                }
            }
            h = h + 1;
        }
    }
    proof {
        assert(hosts@.len() * ports@.len() == n * m);
    }
    r
}

/// Host-by-port expansion: `n` hosts and `m` ports give exactly `n * m` TCP
/// targets, the one at `i * m + j` for host `i` and port `j`.
pub proof fn law_expansion_order(n: nat, m: nat, i: nat, j: nat)
    requires
        i < n,
        j < m,
    ensures
        target_count(n, m, false) == n * m,
        i * m + j < n * m,
        forall|i2: nat, j2: nat|
            i2 < n && j2 < m && (i2 != i || j2 != j) ==> #[trigger] (i2 * m + j2) != i * m + j,
{
    assert(i * m + j < n * m) by (nonlinear_arith)
        requires
            i < n,
            j < m,
    ;
    assert forall|i2: nat, j2: nat|
        i2 < n && j2 < m && (i2 != i || j2 != j) implies #[trigger] (i2 * m + j2) != i * m + j by {
        if i2 == i {
        } else if i2 < i {
            assert(i2 * m + j2 < i * m) by (nonlinear_arith)
                requires
                    i2 < i,
                    j2 < m,
            ;
        } else {
            assert(i * m + j < i2 * m) by (nonlinear_arith)
                requires
                    i < i2,
                    j < m,
            ;
        }
    }
}

/// The outcome of one cycle: when it ran, and every target's record in
/// target order.
pub struct ScanResult {
    pub scan_timestamp: String,
    pub results: Vec<HostResult>,
}

/// What the orchestrator does after emitting a cycle's result.
#[derive(PartialEq, Eq, Structural, Clone, Copy, Debug)]
pub enum CycleAction {
    Sleep(u64),
    Stop,
}

#[derive(PartialEq, Eq, Structural, Clone, Copy, Debug)]
pub enum RunState {
    Running,
    Terminated,
}

/// The repeat-or-stop state machine around scan cycles.
pub struct Scheduler {
    pub once: bool,
    pub state: RunState,
}

impl Scheduler {
    pub fn new(once: bool) -> (r: Scheduler)
        ensures
            r.once == once,
            r.state == RunState::Running,
    {
        Scheduler { once, state: RunState::Running }
    }

    /// Whether another cycle is to run.
    pub fn is_running(&self) -> (r: bool)
        ensures
            r == (self.state == RunState::Running),
    {
        self.state == RunState::Running
    }

    /// Closes a cycle: builds its scan result from the time (in seconds since
    /// the epoch) and the records in target order, then stops in single-shot
    /// mode or sleeps the cycle interval before the next cycle.
    pub fn complete_cycle(&mut self, timestamp_secs: u64, results: Vec<HostResult>) -> (r: (ScanResult, CycleAction))
        requires
            old(self).state == RunState::Running,
        ensures
            r.0.scan_timestamp@ == decimal(timestamp_secs as nat),
            r.0.results@ == results@,
            final(self).once == old(self).once,
            old(self).once ==> r.1 == CycleAction::Stop && final(self).state == RunState::Terminated,
            !old(self).once ==> r.1 == CycleAction::Sleep(CYCLE_INTERVAL_MS) && final(self).state
                == RunState::Running,
    {
        let scan = ScanResult { scan_timestamp: decimal_text(timestamp_secs), results };
        if self.once {
            self.state = RunState::Terminated;
            (scan, CycleAction::Stop)
        } else {
            (scan, CycleAction::Sleep(CYCLE_INTERVAL_MS))
        }
    }
}

} // verus!

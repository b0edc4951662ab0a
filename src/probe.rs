//! The decisions of one target's probe, as a state machine: the caller
//! performs each action (resolve, open a session, one timed attempt) and
//! hands back what happened.
use vstd::prelude::*;
use crate::result::AttemptOutcome;
use crate::result::HostResult;
use crate::result::ProbeError;
use crate::result::Status;
use crate::result::Tally;
use crate::result::last_failure;
use crate::result::lemma_no_success_has_failure;
use crate::result::lemma_success_count;
use crate::result::status_for;
use crate::result::success_times;
use crate::scan::ProbeTarget;

verus! {

/// Relies on `rand::random`: a value drawn from the thread-local generator.
/// Nothing is known of the value.
pub assume_specification<T>[ rand::random::<T> ]() -> (r: T)
    where
        rand::distributions::Standard: rand::distributions::Distribution<T>,
;

/// What an address lookup gave.
pub enum Resolution {
    Found,
    NoAddress,
    Failed(String),
}

/// What the caller is to do next for this probe.
#[derive(PartialEq, Eq, Structural, Clone, Copy, Debug)]
pub enum ProbeAction {
    /// One timed attempt; for ICMP, an echo request with this identifier and
    /// sequence number.
    Attempt { identifier: u16, sequence: u16 },
    /// No attempt is left: take the record with `finish`.
    Done,
}

/// The probe of one target: at most `count` attempts, one after the other,
/// stopped before the first when the host cannot be resolved or no ICMP
/// session can be opened.
pub struct Probe {
    pub target: ProbeTarget,
    pub count: u32,
    /// Fixed for the whole probe, so that its echo replies can be told
    /// apart from those of other probes.
    pub identifier: u16,
    pub issued: u32,
    pub tally: Tally,
    pub stopped: Option<ProbeError>,
    pub outcomes: Ghost<Seq<AttemptOutcome>>,
}

impl Probe {
    pub open spec fn wf(&self) -> bool {
        &&& self.count > 0
        &&& self.target.wf()
        &&& self.issued <= self.count
        &&& self.outcomes@.len() == self.issued
        &&& self.tally.reduces(self.outcomes@)
        &&& (self.stopped is Some ==> self.issued == 0)
    }

    /// The sequence number of the attempt after `issued` ones: counted from
    /// one, modulo 2^16.
    pub open spec fn next_sequence(issued: u32) -> u16 {
        ((issued + 1) % 0x10000) as u16
    }

    /// A probe of `target` with `count` attempts and an identifier drawn at
    /// random.
    pub fn new(target: ProbeTarget, count: u32) -> (r: Probe)
        requires
            count > 0,
            target.wf(),
        ensures
            r.wf(),
            r.target == target,
            r.count == count,
            r.issued == 0,
            r.stopped is None,
    {
        let identifier: u16 = rand::random();
        Probe {
            target,
            count,
            identifier,
            issued: 0,
            tally: Tally::new(),
            stopped: None,
            outcomes: Ghost(Seq::empty()),
        }
    }

    /// Takes the result of resolving the target's host. A lookup that found
    /// no address, or failed, ends the probe before any attempt.
    pub fn on_resolution(&mut self, resolution: Resolution)
        requires
            old(self).wf(),
            old(self).issued == 0,
            old(self).stopped is None,
        ensures
            final(self).wf(),
            final(self).target == old(self).target,
            final(self).count == old(self).count,
            final(self).identifier == old(self).identifier,
            final(self).issued == 0,
            final(self).stopped == match resolution {
                Resolution::Found => None,
                Resolution::NoAddress => Some(ProbeError::DnsResolutionFailed),
                Resolution::Failed(d) => Some(ProbeError::DnsError(d)),
            },
    {
        match resolution {
            Resolution::Found => {},
            Resolution::NoAddress => {
                self.stopped = Some(ProbeError::DnsResolutionFailed);
            },
            Resolution::Failed(d) => {
                self.stopped = Some(ProbeError::DnsError(d));
            },
        }
    }

    /// Takes the result of opening the ICMP session. A failure, most often
    /// for want of privilege, ends the probe before any echo request.
    pub fn on_session(&mut self, session: Result<(), String>)
        requires
            old(self).wf(),
            old(self).issued == 0,
            old(self).stopped is None,
        ensures
            final(self).wf(),
            final(self).target == old(self).target,
            final(self).count == old(self).count,
            final(self).identifier == old(self).identifier,
            final(self).issued == 0,
            final(self).stopped == match session {
                Ok(()) => None,
                Err(d) => Some(ProbeError::IcmpClientError(d)),
            },
    {
        match session {
            Ok(()) => {},
            Err(d) => {
                self.stopped = Some(ProbeError::IcmpClientError(d));
            },
        }
    }

    /// The next step: another attempt while fewer than `count` were made
    /// and the probe was not stopped, else `Done`.
    pub fn next_action(&self) -> (r: ProbeAction)
        requires
            self.wf(),
        ensures
            r == (if self.stopped is Some || self.issued == self.count {
                ProbeAction::Done
            } else {
                ProbeAction::Attempt {
                    identifier: self.identifier,
                    sequence: Self::next_sequence(self.issued),
                }
            }),
    {
        if self.stopped.is_some() || self.issued == self.count {
            ProbeAction::Done
        } else {
            let next: u32 = self.issued + 1;
            ProbeAction::Attempt { identifier: self.identifier, sequence: (next % 0x10000) as u16 }
        }
    }

    /// Takes the outcome of the attempt that `next_action` asked for.
    pub fn on_attempt(&mut self, outcome: AttemptOutcome)
        requires
            old(self).wf(),
            old(self).stopped is None,
            old(self).issued < old(self).count,
        ensures
            final(self).wf(),
            final(self).target == old(self).target,
            final(self).count == old(self).count,
            final(self).identifier == old(self).identifier,
            final(self).stopped is None,
            final(self).issued == old(self).issued + 1,
            final(self).outcomes@ == old(self).outcomes@.push(outcome),
    {
        let ghost o = outcome;
        proof {
            lemma_success_count(self.outcomes@);
        }
        self.tally.record(outcome);
        self.issued = self.issued + 1;
        self.outcomes = Ghost(self.outcomes@.push(o));
    }

    /// The probe's record, once `next_action` says `Done`. A stopped probe
    /// reports every attempt as failed with the error that stopped it;
    /// otherwise the record reduces the attempts' outcomes.
    pub fn finish(self) -> (r: HostResult)
        requires
            self.wf(),
            self.stopped is Some || self.issued == self.count,
        ensures
            r.wf(),
            r.host == self.target.host,
            r.port == self.target.port,
            r.test_type == self.target.kind,
            r.attempts == self.count,
            self.stopped is Some ==> r.successful == 0 && r.response_times@.len() == 0 && r.status
                == Status::Down && r.error == self.stopped,
            self.stopped is None ==> {
                &&& r.response_times@ == success_times(self.outcomes@)
                &&& r.successful == success_times(self.outcomes@).len()
                &&& r.status == status_for(r.successful, r.attempts)
                &&& r.error == if r.successful == 0 {
                    last_failure(self.outcomes@)
                } else {
                    None
                }
            },
    {
        let Probe { target, count, identifier: _, issued: _, tally, stopped, outcomes } = self;
        match stopped {
            Some(e) => HostResult::failed(target.host, target.port, target.kind, count, e),
            None => {
                proof {
                    lemma_success_count(outcomes@);
                    if tally.successful == 0 {
                        lemma_no_success_has_failure(outcomes@);
                    }
                }
                tally.finish(target.host, target.port, target.kind, count)
            },
        }
    }
}

/// The outcome of one TCP connect attempt: `None` when it did not complete
/// within the timeout, else the connect's own result, with the time it took.
pub fn tcp_attempt_outcome(connect: Option<Result<(), String>>, elapsed_ms: u128) -> (r: AttemptOutcome)
    ensures
        r == match connect {
            None => AttemptOutcome::Failure(ProbeError::Timeout),
            Some(Err(d)) => AttemptOutcome::Failure(ProbeError::ConnectionError(d)),
            Some(Ok(())) => AttemptOutcome::Success(elapsed_ms),
        },
{
    match connect {
        None => AttemptOutcome::Failure(ProbeError::Timeout),
        Some(Err(d)) => AttemptOutcome::Failure(ProbeError::ConnectionError(d)),
        Some(Ok(())) => AttemptOutcome::Success(elapsed_ms),
    }
}

/// The outcome of one echo request: the round-trip time of its reply, of
/// either address family, or the error of the ping.
pub fn icmp_attempt_outcome(ping: Result<u128, String>) -> (r: AttemptOutcome)
    ensures
        r == match ping {
            Ok(t) => AttemptOutcome::Success(t),
            Err(d) => AttemptOutcome::Failure(ProbeError::PingError(d)),
        },
{
    match ping {
        Ok(t) => AttemptOutcome::Success(t),
        Err(d) => AttemptOutcome::Failure(ProbeError::PingError(d)),
    }
}

} // verus!

//! What is written down of punch attempts and transfers.

use vstd::prelude::*;
use vstd::string::*;

use crate::punch::strategy::{plan, plan_for, PunchOptions, PunchPlan, Selection};
use crate::punch::targets::{lan, Target};

verus! {

/// What came of an attempt to punch a connection. Durations are carried by the bits of their
/// number of milliseconds.
#[derive(Debug, Clone)]
pub struct PunchReport {
    pub conn_num: u32,
    pub outcome: &'static str,
    /// From the synchronized start to the outcome.
    pub elapsed_ms: u64,
    pub candidates_total: usize,
    pub candidates_lan: usize,
    /// How many candidates came about, including those that were dropped.
    pub candidates_seen: usize,
    /// From the synchronized start to the first candidate.
    pub first_candidate_ms: u64,
    /// Whether the wait for a better candidate has changed the choice.
    pub grace_switch: bool,
    /// How many milliseconds were granted for a better candidate.
    pub grace_ms: u64,
    pub ports_per_target: usize,
    /// Whether targets were served in turn because the budget did not suffice for all.
    pub rotating: bool,
    pub winner_slot: Option<usize>,
    pub winner_local_port: u16,
    pub winner_remote_port: u16,
    pub winner_is_lan: bool,
    /// Whether the own NAT allocates per destination or per connection.
    pub mapping_stable: Option<bool>,
    pub error: Option<String>,
}

/// Why an attempt ends before it begins.
#[derive(Debug, Clone, Copy, PartialEq, Eq, Structural)]
pub enum PunchFault {
    NoTargets,
    NoLocalPort,
}

fn count_lan(targets: &Vec<Target>) -> (n: usize)
    ensures
        n == targets@.filter(lan()).len(),
{
    let mut n: usize = 0;
    let mut i: usize = 0;
    proof {
        reveal(Seq::filter);
    }
    while i < targets.len()
        invariant
            n <= i <= targets@.len(),
            n == targets@.take(i as int).filter(lan()).len(),
        decreases targets@.len() - i,
    {
        proof {
            reveal(Seq::filter);
            assert(targets@.take(i + 1).drop_last() == targets@.take(i as int));
        }
        if targets[i].is_lan {
            n = n + 1;
        }
        i = i + 1;
    }
    assert(targets@.take(i as int) == targets@);
    n
}

impl PunchReport {
    /// A report of an attempt of which nothing is known yet.
    pub fn new(conn_num: u32, mapping_stable: Option<bool>) -> (r: PunchReport)
        ensures
            r == (PunchReport {
                conn_num,
                outcome: "failed",
                elapsed_ms: 0,
                candidates_total: 0,
                candidates_lan: 0,
                candidates_seen: 0,
                first_candidate_ms: 0,
                grace_switch: false,
                grace_ms: 0,
                ports_per_target: 0,
                rotating: false,
                winner_slot: None,
                winner_local_port: 0,
                winner_remote_port: 0,
                winner_is_lan: false,
                mapping_stable,
                error: None,
            }),
    {
        PunchReport {
            conn_num,
            outcome: "failed",
            elapsed_ms: 0,
            candidates_total: 0,
            candidates_lan: 0,
            candidates_seen: 0,
            first_candidate_ms: 0,
            grace_switch: false,
            grace_ms: 0,
            ports_per_target: 0,
            rotating: false,
            winner_slot: None,
            winner_local_port: 0,
            winner_remote_port: 0,
            winner_is_lan: false,
            mapping_stable,
            error: None,
        }
    }

    /// Begins an attempt on these targets from this local port: how the sockets are spread, or why
    /// there is nothing to do.
    pub fn begin(
        &mut self,
        targets: &Vec<Target>,
        opts: &PunchOptions,
        local_port: Option<u16>,
    ) -> (r: Result<PunchPlan, PunchFault>)
        ensures
            r == if targets@.len() == 0 {
                Err::<PunchPlan, PunchFault>(PunchFault::NoTargets)
            } else if local_port is None {
                Err(PunchFault::NoLocalPort)
            } else {
                Ok(plan_for(*opts, targets@.len() as int))
            },
            *final(self) == (PunchReport {
                candidates_total: targets@.len() as usize,
                candidates_lan: targets@.filter(lan()).len() as usize,
                ports_per_target: match r {
                    Ok(p) => p.ports_per_target,
                    Err(_) => old(self).ports_per_target,
                },
                error: final(self).error,
                ..*old(self)
            }),
            match r {
                Ok(_) => final(self).error == old(self).error,
                Err(PunchFault::NoTargets) => final(self).error matches Some(text) && text@
                    == "no target addresses"@,
                Err(PunchFault::NoLocalPort) => final(self).error matches Some(text) && text@
                    == "bound socket without IP address"@,
            },
    {
        self.candidates_total = targets.len();
        self.candidates_lan = count_lan(targets);
        if targets.len() == 0 {
            self.error = Some("no target addresses".to_string());
            return Err(PunchFault::NoTargets);
        }
        if local_port.is_none() {
            self.error = Some("bound socket without IP address".to_string());
            return Err(PunchFault::NoLocalPort);
        }
        let p = plan(opts, targets.len());
        self.ports_per_target = p.ports_per_target;
        Ok(p)
    }

    /// The port could not be listened on.
    pub fn listener_failed(&mut self, error: &str)
        ensures
            final(self).error matches Some(text) && text@ == "listener: "@ + error@,
            *final(self) == (PunchReport { error: final(self).error, ..*old(self) }),
    {
        let mut text: String = "listener: ".to_string();
        text.append(error);
        self.error = Some(text);
    }

    /// The sockets are in place.
    pub fn punching(&mut self, plan: &PunchPlan)
        ensures
            *final(self) == (PunchReport {
                rotating: plan.rotate_after_ms is Some,
                ..*old(self)
            }),
    {
        self.rotating = plan.rotate_after_ms.is_some();
    }

    /// Every worker has ended without a candidate.
    pub fn no_candidate(&mut self)
        ensures
            final(self).error matches Some(text) && text@ == "no candidate"@,
            *final(self) == (PunchReport { error: final(self).error, ..*old(self) }),
    {
        self.error = Some("no candidate".to_string());
    }

    /// The time is over without a candidate; the time is given in words.
    pub fn timed_out(&mut self, timeout: &str)
        ensures
            final(self).error matches Some(text) && text@ == "timed out after "@ + timeout@,
            *final(self) == (PunchReport {
                outcome: "timeout",
                error: final(self).error,
                ..*old(self)
            }),
    {
        self.outcome = "timeout";
        let mut text: String = "timed out after ".to_string();
        text.append(timeout);
        self.error = Some(text);
    }

    /// A connection has come about and has been chosen.
    pub fn chosen(&mut self, selection: &Selection)
        ensures
            *final(self) == (PunchReport {
                outcome: "established",
                candidates_seen: selection.seen,
                grace_switch: selection.switched,
                winner_local_port: selection.winner.local_port,
                winner_remote_port: selection.winner.remote_port,
                winner_is_lan: selection.winner.is_lan,
                winner_slot: selection.winner.slot,
                ..*old(self)
            }),
    {
        self.outcome = "established";
        self.candidates_seen = selection.seen;
        self.grace_switch = selection.switched;
        self.winner_local_port = selection.winner.local_port;
        self.winner_remote_port = selection.winner.remote_port;
        self.winner_is_lan = selection.winner.is_lan;
        self.winner_slot = selection.winner.slot;
    }
}

/// Where records go. Without a path nothing is written.
pub struct MetricsSink {
    path: Option<String>,
    label: Option<String>,
}

impl MetricsSink {
    pub closed spec fn path_of(self) -> Option<String> {
        self.path
    }

    pub closed spec fn label_of(self) -> Option<String> {
        self.label
    }

    pub fn new(path: Option<String>, label: Option<String>) -> (s: MetricsSink)
        ensures
            s.path_of() == path,
            s.label_of() == label,
    {
        MetricsSink { path, label }
    }

    pub fn enabled(&self) -> (yes: bool)
        ensures
            yes == self.path_of() is Some,
    {
        self.path.is_some()
    }

    pub fn path(&self) -> (path: &Option<String>)
        ensures
            *path == self.path_of(),
    {
        &self.path
    }

    pub fn label(&self) -> (label: &Option<String>)
        ensures
            *label == self.label_of(),
    {
        &self.label
    }
}

} // verus!

//! The bounded-concurrency scan engine.
//!
//! The engine is a state machine over one scan run: ports are admitted one
//! at a time as long as a concurrency slot is free, each admitted probe is
//! eventually reported complete, and the run is finished exactly when every
//! port has completed. The embedding program drives the machine: it performs
//! one TCP connection attempt (bounded by the configured timeout) per
//! admitted port and reports each completion back.

use crate::ports::{parse_ports, resolve_spec};
use vstd::prelude::*;

verus! {

/// Outcome of one probe: the connection was established before the timeout
/// (`Open`), actively refused or broken (`Closed`, `ConnectionError`), or
/// still pending when the timeout elapsed (`TimedOut`). All non-open
/// outcomes are reported identically as closed.
#[derive(Clone, Copy, Debug, PartialEq, Eq, Structural)]
pub enum PortOutcome {
    Open,
    Closed,
    TimedOut,
    ConnectionError,
}

impl PortOutcome {
    /// The probe established a connection before its timeout.
    pub open spec fn is_open(self) -> bool {
        self is Open
    }
}

/// Configuration of one scan run, immutable once built.
pub struct ScanConfig {
    /// Textual form of the target IP address, resolved by the caller.
    pub target: String,
    /// The ports to probe, in order; duplicates are probed again.
    pub ports: Vec<u16>,
    /// Upper bound on simultaneously outstanding probes.
    pub concurrency: usize,
    /// Per-probe timeout, in seconds.
    pub timeout: u64,
    /// Whether non-open outcomes are reported.
    pub verbose: bool,
}

impl ScanConfig {
    /// The concurrency bound must be positive for the scan to make progress.
    pub open spec fn wf(&self) -> bool {
        self.concurrency >= 1
    }

    /// Builds the configuration for one scan run, resolving the port
    /// specification string into the concrete port sequence.
    pub fn new(
        target: String,
        ports_spec: String,
        concurrency: usize,
        timeout: u64,
        verbose: bool,
    ) -> (c: ScanConfig)
        requires
            concurrency >= 1,
        ensures
            c.wf(),
            c.target@ == target@,
            c.ports@ == resolve_spec(ports_spec@),
            c.concurrency == concurrency,
            c.timeout == timeout,
            c.verbose == verbose,
    {
        ScanConfig { target, ports: parse_ports(ports_spec), concurrency, timeout, verbose }
    }
}

/// The sliding-window admission state of one scan run.
///
/// `started` counts probes admitted so far; `completed` counts probes whose
/// outcome is known. The window `started - completed` of outstanding probes
/// never exceeds `limit`, and a new probe is admitted as soon as a slot is
/// free, never in fixed batches.
pub struct ScanState {
    /// Number of ports to probe.
    pub total: usize,
    /// Concurrency limit: cap on outstanding probes.
    pub limit: usize,
    /// Number of probes admitted so far.
    pub started: usize,
    /// Number of probes that have completed.
    pub completed: usize,
    /// History of the port indices handed out, in admission order.
    pub launched: Ghost<Seq<int>>,
}

impl ScanState {
    /// Number of probes admitted but not yet completed.
    pub open spec fn outstanding(&self) -> int {
        self.started - self.completed
    }

    /// Invariant of every reachable state: the completed probes are among
    /// the started ones, no more probes start than there are ports, the
    /// outstanding window respects the limit, and the launch history is
    /// exactly the first `started` port indices in order.
    pub open spec fn wf(&self) -> bool {
        &&& self.limit >= 1
        &&& self.completed <= self.started <= self.total
        &&& self.started - self.completed <= self.limit
        &&& self.launched@ == Seq::new(self.started as nat, |i: int| i)
    }

    /// A fresh run over `total` ports with concurrency cap `limit`.
    pub fn new(total: usize, limit: usize) -> (s: ScanState)
        requires
            limit >= 1,
        ensures
            s.wf(),
            s.total == total,
            s.limit == limit,
            s.started == 0,
            s.completed == 0,
    {
        let s = ScanState { total, limit, started: 0, completed: 0, launched: Ghost(Seq::empty()) };
        proof {
            assert(Seq::new(0, |i: int| i) =~= Seq::<int>::empty());
        }
        s
    }

    /// Whether the next probe may be admitted now: a port remains in the
    /// queue and a concurrency slot is free.
    pub fn can_launch(&self) -> (b: bool)
        requires
            self.wf(),
        ensures
            b == (self.started < self.total && self.outstanding() < self.limit),
    {
        self.started < self.total && self.started - self.completed < self.limit
    }

    /// Admits the next probe and returns the index of the port it must
    /// target. Admission preserves the concurrency bound and extends the
    /// launch history by exactly this index.
    pub fn launch(&mut self) -> (idx: usize)
        requires
            old(self).wf(),
            old(self).started < old(self).total,
            old(self).outstanding() < old(self).limit,
        ensures
            final(self).wf(),
            idx == old(self).started,
            idx < final(self).total,
            final(self).started == old(self).started + 1,
            final(self).completed == old(self).completed,
            final(self).total == old(self).total,
            final(self).limit == old(self).limit,
            final(self).outstanding() == old(self).outstanding() + 1,
            final(self).launched@ == old(self).launched@.push(idx as int),
    {
        let idx = self.started;
        self.started = self.started + 1;
        proof {
            assert(Seq::new(self.started as nat, |i: int| i) =~= Seq::new(
                old(self).started as nat,
                |i: int| i,
            ).push(idx as int));
        }
        self.launched = Ghost(self.launched@.push(idx as int));
        idx
    }

    /// Records that one outstanding probe has produced its outcome,
    /// freeing a concurrency slot.
    pub fn on_complete(&mut self)
        requires
            old(self).wf(),
            old(self).outstanding() > 0,
        ensures
            final(self).wf(),
            final(self).completed == old(self).completed + 1,
            final(self).started == old(self).started,
            final(self).total == old(self).total,
            final(self).limit == old(self).limit,
            final(self).launched == old(self).launched,
            final(self).outstanding() == old(self).outstanding() - 1,
    {
        self.completed = self.completed + 1;
    }

    /// Whether every port has been probed: only then may the completion
    /// line be printed.
    pub fn is_finished(&self) -> (b: bool)
        ensures
            b == (self.completed == self.total),
    {
        self.completed == self.total
    }
}

/// Law (concurrency bound): in every reachable scan state the number of
/// outstanding probes lies between zero and the concurrency limit.
pub proof fn lemma_concurrency_bound(s: ScanState)
    requires
        s.wf(),
    ensures
        0 <= s.outstanding() <= s.limit,
{
}

/// Law (completeness): once every probe has completed, exactly one probe
/// was admitted per port, in index order — the launch history is
/// `0, 1, ..., total - 1` with no repetition — and none is outstanding.
pub proof fn lemma_scan_exhaustive(s: ScanState)
    requires
        s.wf(),
        s.completed == s.total,
    ensures
        s.started == s.total,
        s.outstanding() == 0,
        s.launched@.len() == s.total,
        forall|i: int| 0 <= i < s.total ==> s.launched@[i] == i,
        forall|i: int, j: int| 0 <= i < j < s.total ==> s.launched@[i] != s.launched@[j],
{
}

/// Law (coverage): a finished run over the ports of a configuration has
/// probed exactly those ports — the ports at the launched indices, in
/// admission order, are the configuration's port sequence itself. Together
/// with the completeness law, every port in `cfg.ports` was probed exactly
/// once, none skipped and none repeated.
pub proof fn lemma_run_probes_config_ports(cfg: &ScanConfig, s: ScanState)
    requires
        s.wf(),
        s.completed == s.total,
        s.total == cfg.ports@.len(),
    ensures
        s.launched@.map_values(|i: int| cfg.ports@[i]) =~= cfg.ports@,
{
    lemma_scan_exhaustive(s);
    let probed = s.launched@.map_values(|i: int| cfg.ports@[i]);
    assert forall|k: int| 0 <= k < cfg.ports@.len() implies probed[k] == cfg.ports@[k] by {
        assert(s.launched@[k] == k);
    }
}

} // verus!

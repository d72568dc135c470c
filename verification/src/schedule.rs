//! Scheduling the probes of a scan under a concurrency limit.
//!
//! A [`ProbeScheduler`] makes the decisions of a scan and leaves the waiting
//! to its caller. The caller asks for the [`next_action`], starts the probe
//! it is handed or waits for one to finish, and reports each finished probe
//! with [`complete`]. The scheduler never blocks and never fails a probe: at
//! the limit it answers `Wait`.
//!
//! [`next_action`]: ProbeScheduler::next_action
//! [`complete`]: ProbeScheduler::complete

use vstd::prelude::*;
use vstd::seq_lib::*;
use crate::aggregate::{
    lemma_tally_counts,
    lemma_tally_of_distinct_ports,
    ports_of,
    report_of,
    tally_of,
    ResultAggregator,
    ScanReport,
};
use crate::error::ScanError;
use crate::outcome::{ConnectProbe, OutcomeKind, ProbeOutcome};
use crate::ports::{lemma_ascending, lemma_ascending_len};
use crate::range::PortRange;

verus! {

/// The seconds a probe waits unless told otherwise.
pub const DEFAULT_TIMEOUT_SECS: u64 = 10;

/// The number of probes that may be in flight at once unless told otherwise.
pub const DEFAULT_CONCURRENCY_LIMIT: usize = 1000;

/// What the caller of a scheduler is to do next.
#[derive(Clone, Copy, Debug, PartialEq, Eq)]
pub enum Action {
    /// Start this probe. It counts as in flight from now on.
    Probe(ConnectProbe),
    /// Start nothing: wait until a probe in flight has finished.
    Wait,
    /// The scan is over: every port was probed, or the scan was cancelled.
    Finished,
}

/// The state of a scan, as the contracts speak of it.
pub struct SchedulerState {
    /// The ports to probe, in the order in which they are started.
    pub ports: Seq<u16>,
    /// The seconds each probe may take.
    pub timeout_secs: u64,
    /// How many probes may be in flight at once.
    pub limit: nat,
    /// How many ports have been started: the first `started` of `ports`.
    pub started: nat,
    /// The ports whose probe was started and has not been reported. After a
    /// cancellation these are the abandoned ones.
    pub outstanding: Set<u16>,
    /// The reported outcomes, oldest first.
    pub delivered: Seq<(u16, OutcomeKind)>,
    /// Whether the scan was cancelled.
    pub cancelled: bool,
}

impl SchedulerState {
    /// The ports that have been started.
    pub open spec fn started_ports(self) -> Seq<u16> {
        self.ports.take(self.started as int)
    }

    /// What holds of every state a scheduler can reach: no more probes are
    /// outstanding than the limit allows, no port was started twice, and
    /// each started port is either outstanding or reported, never both and
    /// never reported twice. What is scanned are ports, from 1 to 65535.
    pub open spec fn consistent(self) -> bool {
        &&& self.timeout_secs > 0
        &&& self.limit > 0
        &&& self.ports.no_duplicates()
        &&& forall|i: int| 0 <= i < self.ports.len() ==> #[trigger] self.ports[i] >= 1
        &&& self.started <= self.ports.len()
        &&& self.outstanding.finite()
        &&& self.outstanding.len() <= self.limit
        &&& self.delivered.len() + self.outstanding.len() == self.started
        &&& ports_of(self.delivered).no_duplicates()
        &&& forall|p: u16| #[trigger]
            self.outstanding.contains(p) ==> self.started_ports().contains(p) && !ports_of(
                self.delivered,
            ).contains(p)
        &&& forall|p: u16| #[trigger]
            ports_of(self.delivered).contains(p) ==> self.started_ports().contains(p)
        &&& forall|p: u16| #[trigger]
            self.started_ports().contains(p) ==> self.outstanding.contains(p) || ports_of(
                self.delivered,
            ).contains(p)
    }

    /// A probe may be started: the scan goes on, ports are left, and the
    /// limit is not reached.
    pub open spec fn may_start(self) -> bool {
        &&& !self.cancelled
        &&& self.started < self.ports.len()
        &&& self.outstanding.len() < self.limit
    }

    /// Nothing is left to do: the scan was cancelled, or every port was
    /// started and every probe reported.
    pub open spec fn settled(self) -> bool {
        self.cancelled || (self.started == self.ports.len() && self.outstanding.len() == 0)
    }

    /// The scan ran to its end without being cancelled.
    pub open spec fn ran_to_end(self) -> bool {
        !self.cancelled && self.started == self.ports.len() && self.outstanding.len() == 0
    }

    /// The state after the next port was started.
    pub open spec fn after_start(self) -> SchedulerState {
        SchedulerState {
            started: self.started + 1,
            outstanding: self.outstanding.insert(self.ports[self.started as int]),
            ..self
        }
    }

    /// The state after the probe of `port` was reported.
    pub open spec fn after_report(self, port: u16, kind: OutcomeKind) -> SchedulerState {
        SchedulerState {
            outstanding: self.outstanding.remove(port),
            delivered: self.delivered.push((port, kind)),
            ..self
        }
    }

    /// The state after a cancellation.
    pub open spec fn after_cancel(self) -> SchedulerState {
        SchedulerState { cancelled: true, ..self }
    }

    /// The state before the first probe.
    pub open spec fn initial(ports: Seq<u16>, timeout_secs: u64, limit: nat) -> SchedulerState {
        SchedulerState {
            ports,
            timeout_secs,
            limit,
            started: 0,
            outstanding: Set::empty(),
            delivered: Seq::empty(),
            cancelled: false,
        }
    }
}

/// The scheduler of one scan.
pub struct ProbeScheduler {
    range: PortRange,
    timeout_secs: u64,
    limit: usize,
    started: usize,
    in_flight: Vec<u16>,
    cancelled: bool,
    aggregator: ResultAggregator,
}

impl View for ProbeScheduler {
    type V = SchedulerState;

    closed spec fn view(&self) -> SchedulerState {
        SchedulerState {
            ports: self.range@,
            timeout_secs: self.timeout_secs,
            limit: self.limit as nat,
            started: self.started as nat,
            outstanding: self.in_flight@.to_set(),
            delivered: self.aggregator@,
            cancelled: self.cancelled,
        }
    }
}

/// The place of a port in a list, if it is there.
fn position(list: &Vec<u16>, port: u16) -> (at: Option<usize>)
    ensures
        match at {
            Some(i) => i < list@.len() && list@[i as int] == port,
            None => !list@.contains(port),
        },
{
    let mut i: usize = 0;
    while i < list.len()
        invariant
            i <= list@.len(),
            forall|j: int| 0 <= j < i ==> list@[j] != port,
        decreases list@.len() - i,
    {
        if list[i] == port {
            return Some(i);
        }
        i = i + 1;
    }
    None
}

/// Taking one entry out of a list without duplicates leaves a list without
/// duplicates, whose members are the others.
proof fn lemma_remove_unique(list: Seq<u16>, at: int)
    requires
        list.no_duplicates(),
        0 <= at < list.len(),
    ensures
        list.remove(at).no_duplicates(),
        list.remove(at).to_set() == list.to_set().remove(list[at]),
{
    let rest = list.remove(at);
    assert forall|i: int, j: int| 0 <= i < rest.len() && 0 <= j < rest.len() && i != j implies rest[i]
        != rest[j] by {
        let from_i = if i < at { i } else { i + 1 };
        let from_j = if j < at { j } else { j + 1 };
        assert(rest[i] == list[from_i] && rest[j] == list[from_j]);
    }
    assert forall|p: u16| rest.to_set().contains(p) <==> list.to_set().remove(list[at]).contains(
        p,
    ) by {
        if rest.to_set().contains(p) {
            let i = choose|i: int| 0 <= i < rest.len() && rest[i] == p;
            let from_i = if i < at { i } else { i + 1 };
            assert(list[from_i] == p);
        }
        if list.to_set().remove(list[at]).contains(p) {
            let i = choose|i: int| 0 <= i < list.len() && list[i] == p;
            let to_i = if i < at { i } else { i - 1 };
            assert(rest[to_i] == p);
        }
    }
    assert(rest.to_set() =~= list.to_set().remove(list[at]));
}

impl ProbeScheduler {
    /// The scheduler's fields are consistent and its state obeys the
    /// rules of [`SchedulerState::consistent`].
    pub closed spec fn wf(&self) -> bool {
        &&& self.range.wf()
        &&& self.in_flight@.no_duplicates()
        &&& self.aggregator.wf()
        &&& self@.consistent()
    }

    /// A scheduler for the ports of `range`, with `timeout_secs` seconds for
    /// each probe and at most `limit` probes in flight. A timeout of 0 is
    /// refused, and so is a limit of 0; nothing has been probed by then.
    pub fn new(range: PortRange, timeout_secs: u64, limit: usize) -> (r: Result<
        ProbeScheduler,
        ScanError,
    >)
        requires
            range.wf(),
        ensures
            r is Ok <==> timeout_secs > 0 && limit > 0,
            r matches Ok(scheduler) ==> scheduler.wf() && scheduler@ == SchedulerState::initial(
                range@,
                timeout_secs,
                limit as nat,
            ),
            r matches Err(e) ==> e == (if timeout_secs == 0 {
                ScanError::InvalidTimeout
            } else {
                ScanError::InvalidConcurrencyLimit
            }),
    {
        if timeout_secs == 0 {
            return Err(ScanError::InvalidTimeout);
        }
        if limit == 0 {
            return Err(ScanError::InvalidConcurrencyLimit);
        }
        let scheduler = ProbeScheduler {
            range,
            timeout_secs,
            limit,
            started: 0,
            in_flight: Vec::new(),
            cancelled: false,
            aggregator: ResultAggregator::new(),
        };
        proof {
            range.lemma_view();
            lemma_initial_is_consistent(range@, timeout_secs, limit as nat);
            assert(scheduler.in_flight@.to_set() =~= Set::<u16>::empty());
        }
        Ok(scheduler)
    }

    /// A scheduler for the ports from `start` to `end`, both included. The
    /// configuration is checked as a whole before anything is probed: first
    /// the range, then the timeout, then the limit.
    pub fn configure(start: u16, end: u16, timeout_secs: u64, limit: usize) -> (r: Result<
        ProbeScheduler,
        ScanError,
    >)
        ensures
            r is Ok <==> 1 <= start <= end && timeout_secs > 0 && limit > 0,
            r matches Ok(scheduler) ==> scheduler.wf() && scheduler@ == SchedulerState::initial(
                crate::range::ports_between(start as int, end as int),
                timeout_secs,
                limit as nat,
            ),
            r matches Err(e) ==> e == (if !(1 <= start <= end) {
                ScanError::InvalidRange
            } else if timeout_secs == 0 {
                ScanError::InvalidTimeout
            } else {
                ScanError::InvalidConcurrencyLimit
            }),
    {
        match PortRange::new(start, end) {
            Err(e) => Err(e),
            Ok(range) => {
                proof {
                    range.lemma_bounds();
                }
                ProbeScheduler::new(range, timeout_secs, limit)
            },
        }
    }

    /// A scheduler for all ports, 1 to 65535, with a timeout of 10 seconds
    /// and at most 1000 probes in flight.
    pub fn with_defaults() -> (scheduler: ProbeScheduler)
        ensures
            scheduler.wf(),
            scheduler@ == SchedulerState::initial(
                crate::range::ports_between(1, 65535),
                DEFAULT_TIMEOUT_SECS,
                DEFAULT_CONCURRENCY_LIMIT as nat,
            ),
    {
        let range = PortRange::full();
        proof {
            range.lemma_bounds();
        }
        match ProbeScheduler::new(range, DEFAULT_TIMEOUT_SECS, DEFAULT_CONCURRENCY_LIMIT) {
            Ok(scheduler) => scheduler,
            Err(_) => vstd::pervasive::unreached(),
        }
    }

    /// The range being scanned.
    pub fn range(&self) -> (range: PortRange)
        ensures
            range@ == self@.ports,
            self.wf() ==> range.wf(),
    {
        self.range
    }

    /// The seconds each probe may take.
    pub fn timeout_secs(&self) -> (t: u64)
        ensures
            t == self@.timeout_secs,
    {
        self.timeout_secs
    }

    /// How many probes may be in flight at once.
    pub fn limit(&self) -> (n: usize)
        ensures
            n == self@.limit,
    {
        self.limit
    }

    /// How many ports have been started.
    pub fn started(&self) -> (n: usize)
        ensures
            n == self@.started,
    {
        self.started
    }

    /// How many probes are outstanding.
    pub fn in_flight(&self) -> (n: usize)
        requires
            self.wf(),
        ensures
            n == self@.outstanding.len(),
            n <= self@.limit,
    {
        proof {
            self.in_flight@.unique_seq_to_set();
        }
        self.in_flight.len()
    }

    /// Whether the probe of `port` is outstanding.
    pub fn is_outstanding(&self, port: u16) -> (b: bool)
        ensures
            b == self@.outstanding.contains(port),
    {
        position(&self.in_flight, port).is_some()
    }

    /// How many outcomes have been reported.
    pub fn delivered(&self) -> (n: u64)
        requires
            self.wf(),
        ensures
            n == self@.delivered.len(),
    {
        self.aggregator.delivered()
    }

    /// Whether the scan was cancelled.
    pub fn is_cancelled(&self) -> (b: bool)
        ensures
            b == self@.cancelled,
    {
        self.cancelled
    }

    /// Whether nothing is left to do, so that the report can be had.
    pub fn is_settled(&self) -> (b: bool)
        requires
            self.wf(),
        ensures
            b == self@.settled(),
    {
        proof {
            self.in_flight@.unique_seq_to_set();
        }
        self.cancelled || (self.started == self.range.len() && self.in_flight.len() == 0)
    }

    /// Decides what to do next. While the scan goes on, ports are left and
    /// fewer probes are outstanding than the limit allows, the next port of
    /// the range is started. Otherwise the answer is to wait, as long as a
    /// probe is outstanding, and that the scan is finished when none is.
    /// After a cancellation nothing is started any more.
    pub fn next_action(&mut self) -> (action: Action)
        requires
            old(self).wf(),
        ensures
            final(self).wf(),
            final(self)@.outstanding.len() <= final(self)@.limit,
            match action {
                Action::Probe(probe) => {
                    &&& old(self)@.may_start()
                    &&& probe.target_port() == old(self)@.ports[old(self)@.started as int]
                    &&& probe.patience() == old(self)@.timeout_secs
                    &&& final(self)@ == old(self)@.after_start()
                },
                Action::Wait => {
                    &&& !old(self)@.may_start()
                    &&& !old(self)@.settled()
                    &&& final(self)@ == old(self)@
                },
                Action::Finished => {
                    &&& old(self)@.settled()
                    &&& final(self)@ == old(self)@
                },
            },
    {
        proof {
            self.in_flight@.unique_seq_to_set();
        }
        if self.cancelled {
            return Action::Finished;
        }
        if self.started < self.range.len() {
            if self.in_flight.len() < self.limit {
                let port = self.range.port_at(self.started);
                proof {
                    lemma_start_keeps_consistent(self@);
                    let list = self.in_flight@;
                    assert(!list.contains(port));
                    list.lemma_push_to_set_commute(port);
                }
                self.in_flight.push(port);
                self.started = self.started + 1;
                assert(self@ == old(self)@.after_start());
                return Action::Probe(ConnectProbe::with_timeout(port, self.timeout_secs));
            }
            return Action::Wait;
        }
        if self.in_flight.len() > 0 {
            Action::Wait
        } else {
            Action::Finished
        }
    }

    /// Takes the outcome of the probe of `port`. It is accepted when that
    /// probe is outstanding and the scan was not cancelled: the probe then
    /// leaves the outstanding ones and its outcome reaches the aggregator.
    /// Anything else, the late outcome of an abandoned probe too, is turned
    /// away and changes nothing. An outcome never ends the scan, whatever
    /// its class.
    pub fn complete(&mut self, port: u16, outcome: ProbeOutcome) -> (accepted: bool)
        requires
            old(self).wf(),
        ensures
            final(self).wf(),
            accepted == (!old(self)@.cancelled && old(self)@.outstanding.contains(port)),
            accepted ==> final(self)@ == old(self)@.after_report(port, outcome.class()),
            !accepted ==> final(self)@ == old(self)@,
    {
        if self.cancelled {
            return false;
        }
        match position(&self.in_flight, port) {
            None => false,
            Some(at) => {
                proof {
                    lemma_report_keeps_consistent(self@, port, outcome.class());
                    lemma_remove_unique(self.in_flight@, at as int);
                }
                self.in_flight.remove(at);
                self.aggregator.add(port, outcome);
                assert(self@ == old(self)@.after_report(port, outcome.class()));
                true
            },
        }
    }

    /// Cancels the scan. The call does not wait for anything: the probes
    /// still outstanding are abandoned, nothing more is started, and what
    /// was reported so far is kept. A second cancellation changes nothing.
    pub fn cancel(&mut self)
        requires
            old(self).wf(),
        ensures
            final(self).wf(),
            final(self)@ == old(self)@.after_cancel(),
    {
        self.cancelled = true;
        proof {
            lemma_cancel_keeps_consistent(old(self)@);
        }
    }

    /// The report of the scan, once it is settled. Asked earlier, while
    /// ports are unprobed or probes outstanding, the call does not wait: it
    /// fails with `IncompleteScan`. The report of a cancelled scan is marked
    /// as partial; a scan that ran to its end always has a report, even
    /// when no probe found anything.
    pub fn finish(&self) -> (r: Result<ScanReport, ScanError>)
        requires
            self.wf(),
        ensures
            r is Ok <==> self@.settled(),
            r matches Ok(report) ==> report@.canonical() && report@ == report_of(
                tally_of(self@.delivered),
                self@.cancelled,
            ),
            r matches Err(e) ==> e == ScanError::IncompleteScan,
    {
        if self.cancelled {
            Ok(self.aggregator.finalize_partial())
        } else if self.is_settled() {
            Ok(self.aggregator.finalize())
        } else {
            Err(ScanError::IncompleteScan)
        }
    }

    /// The concurrency bound: in every state a scheduler can reach, the
    /// probes outstanding are no more than the limit.
    pub proof fn lemma_concurrency_bound(&self)
        requires
            self.wf(),
        ensures
            self@.consistent(),
            self@.outstanding.finite(),
            self@.outstanding.len() <= self@.limit,
    {
    }
}

/// A scan starts in a consistent state.
pub proof fn lemma_initial_is_consistent(ports: Seq<u16>, timeout_secs: u64, limit: nat)
    requires
        ports.no_duplicates(),
        forall|i: int| 0 <= i < ports.len() ==> #[trigger] ports[i] >= 1,
        timeout_secs > 0,
        limit > 0,
    ensures
        SchedulerState::initial(ports, timeout_secs, limit).consistent(),
{
    let state = SchedulerState::initial(ports, timeout_secs, limit);
    assert(state.started_ports() =~= Seq::<u16>::empty());
    assert(ports_of(state.delivered) =~= Seq::<u16>::empty());
}

/// Starting the next port keeps the state consistent. The port is new: it
/// was neither outstanding nor reported before.
pub proof fn lemma_start_keeps_consistent(state: SchedulerState)
    requires
        state.consistent(),
        state.may_start(),
    ensures
        state.after_start().consistent(),
        !state.outstanding.contains(state.ports[state.started as int]),
        !ports_of(state.delivered).contains(state.ports[state.started as int]),
{
    let port = state.ports[state.started as int];
    let after = state.after_start();
    if state.started_ports().contains(port) {
        let i = choose|i: int|
            0 <= i < state.started_ports().len() && state.started_ports()[i] == port;
        assert(state.ports[i] == port);
    }
    assert(after.started_ports() == state.started_ports().push(port));
    assert forall|p: u16| #[trigger]
        after.started_ports().contains(p) implies after.outstanding.contains(p) || ports_of(
        after.delivered,
    ).contains(p) by {
        let i = choose|i: int| 0 <= i < after.started_ports().len() && after.started_ports()[i] == p;
        if i < state.started_ports().len() {
            assert(state.started_ports()[i] == p);
            assert(state.started_ports().contains(p));
        }
    }
    assert forall|p: u16| #[trigger]
        after.outstanding.contains(p) implies after.started_ports().contains(p) && !ports_of(
        after.delivered,
    ).contains(p) by {
        if p == port {
            assert(after.started_ports()[state.started as int] == p);
        } else {
            assert(state.outstanding.contains(p));
            let i = choose|i: int|
                0 <= i < state.started_ports().len() && state.started_ports()[i] == p;
            assert(after.started_ports()[i] == p);
        }
    }
    assert forall|p: u16| #[trigger]
        ports_of(after.delivered).contains(p) implies after.started_ports().contains(p) by {
        assert(state.started_ports().contains(p));
        let i = choose|i: int| 0 <= i < state.started_ports().len() && state.started_ports()[i] == p;
        assert(after.started_ports()[i] == p);
    }
}

/// Reporting an outstanding probe keeps the state consistent. What is
/// reported is the outcome of a port.
pub proof fn lemma_report_keeps_consistent(state: SchedulerState, port: u16, kind: OutcomeKind)
    requires
        state.consistent(),
        state.outstanding.contains(port),
    ensures
        state.after_report(port, kind).consistent(),
        port >= 1,
{
    assert(port >= 1) by {
        assert(state.started_ports().contains(port));
        let i = choose|i: int|
            0 <= i < state.started_ports().len() && state.started_ports()[i] == port;
        assert(state.ports[i] == port);
    }
    let after = state.after_report(port, kind);
    let before_ports = ports_of(state.delivered);
    let after_ports = ports_of(after.delivered);
    assert(after_ports == before_ports.push(port));
    assert(after.started_ports() == state.started_ports());
    assert(!before_ports.contains(port));
    assert forall|i: int, j: int|
        0 <= i < after_ports.len() && 0 <= j < after_ports.len() && i != j implies after_ports[i]
        != after_ports[j] by {
        if i < before_ports.len() {
            assert(before_ports.contains(before_ports[i]));
        }
        if j < before_ports.len() {
            assert(before_ports.contains(before_ports[j]));
        }
    }
    assert forall|p: u16| #[trigger]
        after_ports.contains(p) implies after.started_ports().contains(p) by {
        let i = choose|i: int| 0 <= i < after_ports.len() && after_ports[i] == p;
        if i < before_ports.len() {
            assert(before_ports[i] == p);
            assert(before_ports.contains(p));
        }
    }
    assert forall|p: u16| #[trigger]
        after.outstanding.contains(p) implies after.started_ports().contains(p)
        && !after_ports.contains(p) by {
        assert(state.outstanding.contains(p));
        if after_ports.contains(p) {
            let i = choose|i: int| 0 <= i < after_ports.len() && after_ports[i] == p;
            if i < before_ports.len() {
                assert(before_ports[i] == p);
                assert(before_ports.contains(p));
            }
        }
    }
    assert forall|p: u16| #[trigger]
        after.started_ports().contains(p) implies after.outstanding.contains(p)
        || after_ports.contains(p) by {
        if p == port {
            assert(after_ports[before_ports.len() as int] == p);
        } else if before_ports.contains(p) {
            let i = choose|i: int| 0 <= i < before_ports.len() && before_ports[i] == p;
            assert(after_ports[i] == p);
        }
    }
}

/// Cancelling keeps the state consistent, and a cancelled scan is settled.
pub proof fn lemma_cancel_keeps_consistent(state: SchedulerState)
    requires
        state.consistent(),
    ensures
        state.after_cancel().consistent(),
        state.after_cancel().settled(),
{
    let after = state.after_cancel();
    assert(after.started_ports() == state.started_ports());
}

/// No port is dropped: when a scan has run to its end, the ports with a
/// reported outcome are exactly the ports of the range, each reported once.
pub proof fn lemma_complete_scan_covers_range(state: SchedulerState)
    requires
        state.consistent(),
        state.ran_to_end(),
    ensures
        ports_of(state.delivered).to_set() == state.ports.to_set(),
        ports_of(state.delivered).no_duplicates(),
        state.delivered.len() == state.ports.len(),
{
    assert(state.started_ports() == state.ports);
    assert(state.outstanding =~= Set::<u16>::empty()) by {
        if !(state.outstanding =~= Set::<u16>::empty()) {
            let p = choose|p: u16| state.outstanding.contains(p);
            assert(state.outstanding.contains(p));
            assert(state.outstanding.len() > 0) by {
                vstd::set_lib::lemma_set_empty_equivalency_len(state.outstanding);
            }
        }
    }
    assert forall|p: u16|
        ports_of(state.delivered).to_set().contains(p) <==> state.ports.to_set().contains(p) by {
        if state.ports.contains(p) {
            assert(state.started_ports().contains(p));
        }
    }
    assert(ports_of(state.delivered).to_set() =~= state.ports.to_set());
}

/// Also in a scan that was cut short, every reported port is a port of the
/// range that was started, and none is reported twice.
pub proof fn lemma_reported_ports_were_started(state: SchedulerState, port: u16)
    requires
        state.consistent(),
        ports_of(state.delivered).contains(port),
    ensures
        state.ports.contains(port),
        !state.outstanding.contains(port),
{
    assert(state.started_ports().contains(port));
    let i = choose|i: int| 0 <= i < state.started_ports().len() && state.started_ports()[i] == port;
    assert(state.ports[i] == port);
}

/// The report of a scan that ran to its end accounts for every port of the
/// range: its open ports and its three counts together are as many as the
/// ports, and each open port is a port of the range.
pub proof fn lemma_complete_report_accounts_for_range(state: SchedulerState)
    requires
        state.consistent(),
        state.ran_to_end(),
    ensures
        report_of(tally_of(state.delivered), false).open_ports.len() + report_of(
            tally_of(state.delivered),
            false,
        ).closed_or_filtered + report_of(tally_of(state.delivered), false).timed_out + report_of(
            tally_of(state.delivered),
            false,
        ).errors == state.ports.len(),
        forall|i: int|
            0 <= i < report_of(tally_of(state.delivered), false).open_ports.len()
                ==> state.ports.contains(
                #[trigger] report_of(tally_of(state.delivered), false).open_ports[i],
            ),
{
    let tally = tally_of(state.delivered);
    let report = report_of(tally, false);
    lemma_complete_scan_covers_range(state);
    lemma_tally_of_distinct_ports(state.delivered);
    lemma_tally_counts(state.delivered);
    lemma_ascending_len(tally.open);
    lemma_ascending(tally.open);
    assert forall|i: int| 0 <= i < report.open_ports.len() implies state.ports.contains(
        #[trigger] report.open_ports[i],
    ) by {
        let port = report.open_ports[i];
        assert(report.open_ports.to_set().contains(port));
        assert(tally.open.contains(port));
        let at = choose|at: int|
            0 <= at < state.delivered.len() && state.delivered[at] == (port, OutcomeKind::Open);
        assert(ports_of(state.delivered)[at] == port);
        assert(ports_of(state.delivered).to_set().contains(port));
        assert(state.ports.to_set().contains(port));
    }
}

} // verus!

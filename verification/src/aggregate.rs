//! Collecting probe outcomes into a report.
//!
//! A [`ResultAggregator`] takes outcomes in whatever order the probes
//! finish. What it has heard is modelled as the sequence of its deliveries;
//! what it reports is a function of how often each delivery occurs in that
//! sequence, so the order of arrival leaves no trace in the report.

use vstd::prelude::*;
use vstd::seq_lib::*;
use crate::outcome::{OutcomeKind, ProbeOutcome};
use crate::ports::{ascending, is_port_list, lemma_ascending, sorted_unique};
use crate::render::{join_ports, joined};

verus! {

/// What the outcomes heard so far add up to: the set of ports found open,
/// and how many outcomes fell in each of the other classes.
pub struct Tally {
    pub open: Set<u16>,
    pub closed_or_filtered: nat,
    pub timed_out: nat,
    pub errors: nat,
}

impl Tally {
    /// The tally before any outcome.
    pub open spec fn empty() -> Tally {
        Tally { open: Set::empty(), closed_or_filtered: 0, timed_out: 0, errors: 0 }
    }

    /// The tally after one more outcome. An open port joins the set, where
    /// it can be only once; any other outcome is counted in its class.
    pub open spec fn record(self, port: u16, kind: OutcomeKind) -> Tally {
        match kind {
            OutcomeKind::Open => Tally { open: self.open.insert(port), ..self },
            OutcomeKind::ClosedOrFiltered => Tally {
                closed_or_filtered: self.closed_or_filtered + 1,
                ..self
            },
            OutcomeKind::TimedOut => Tally { timed_out: self.timed_out + 1, ..self },
            OutcomeKind::Error => Tally { errors: self.errors + 1, ..self },
        }
    }
}

/// The tally of a sequence of deliveries, each a port with the class of its
/// outcome.
pub open spec fn tally_of(log: Seq<(u16, OutcomeKind)>) -> Tally
    decreases log.len(),
{
    if log.len() == 0 {
        Tally::empty()
    } else {
        tally_of(log.drop_last()).record(log.last().0, log.last().1)
    }
}

/// How many deliveries of a log fall in a class.
pub open spec fn count_of(log: Seq<(u16, OutcomeKind)>, kind: OutcomeKind) -> nat
    decreases log.len(),
{
    if log.len() == 0 {
        0
    } else {
        count_of(log.drop_last(), kind) + if log.last().1 == kind {
            1nat
        } else {
            0nat
        }
    }
}

/// The ports of a sequence of deliveries, in the same order.
pub open spec fn ports_of(log: Seq<(u16, OutcomeKind)>) -> Seq<u16> {
    Seq::new(log.len(), |i: int| log[i].0)
}

/// What a report says.
pub struct ReportView {
    /// The open ports.
    pub open_ports: Seq<u16>,
    /// The open ports as text.
    pub text: Seq<char>,
    /// How many probes were refused or found the host unreachable.
    pub closed_or_filtered: nat,
    /// How many probes timed out.
    pub timed_out: nat,
    /// How many probes failed otherwise.
    pub errors: nat,
    /// Whether the scan was cut short.
    pub partial: bool,
}

impl ReportView {
    /// The open ports ascend strictly, none of them is 0, and the text is
    /// their rendering.
    pub open spec fn canonical(self) -> bool {
        &&& is_port_list(self.open_ports)
        &&& self.text == joined(self.open_ports)
    }
}

/// The report that a tally gives: its open ports in ascending order, their
/// text, and the counts as they are.
pub open spec fn report_of(tally: Tally, partial: bool) -> ReportView {
    ReportView {
        open_ports: ascending(tally.open),
        text: joined(ascending(tally.open)),
        closed_or_filtered: tally.closed_or_filtered,
        timed_out: tally.timed_out,
        errors: tally.errors,
        partial,
    }
}

/// The result of a scan: the open ports in ascending order, the same as
/// text, and for diagnosis the number of outcomes of each other class.
#[derive(Debug)]
pub struct ScanReport {
    open_ports: Vec<u16>,
    rendered: String,
    closed_or_filtered: u64,
    timed_out: u64,
    errors: u64,
    partial: bool,
}

impl View for ScanReport {
    type V = ReportView;

    closed spec fn view(&self) -> ReportView {
        ReportView {
            open_ports: self.open_ports@,
            text: self.rendered@,
            closed_or_filtered: self.closed_or_filtered as nat,
            timed_out: self.timed_out as nat,
            errors: self.errors as nat,
            partial: self.partial,
        }
    }
}

impl ScanReport {
    /// The open ports, ascending and without duplicates.
    pub fn open_ports(&self) -> (ports: &Vec<u16>)
        ensures
            ports@ == self@.open_ports,
    {
        &self.open_ports
    }

    /// The open ports as text, such as `22,80,443`; empty when none is open.
    pub fn rendered(&self) -> (text: &str)
        ensures
            text@ == self@.text,
    {
        self.rendered.as_str()
    }

    /// The number of probes that were refused or found the host unreachable.
    pub fn closed_or_filtered(&self) -> (n: u64)
        ensures
            n == self@.closed_or_filtered,
    {
        self.closed_or_filtered
    }

    /// The number of probes that timed out.
    pub fn timed_out(&self) -> (n: u64)
        ensures
            n == self@.timed_out,
    {
        self.timed_out
    }

    /// The number of probes that failed for another reason.
    pub fn errors(&self) -> (n: u64)
        ensures
            n == self@.errors,
    {
        self.errors
    }

    /// Whether the scan was cut short, so that the report covers only the
    /// probes that had finished by then.
    pub fn is_partial(&self) -> (b: bool)
        ensures
            b == self@.partial,
    {
        self.partial
    }

    /// Gives up the report for its list of open ports.
    pub fn into_open_ports(self) -> (ports: Vec<u16>)
        ensures
            ports@ == self@.open_ports,
    {
        self.open_ports
    }
}

/// The sink that probe outcomes are delivered to.
///
/// It is fed through an exclusive reference, so deliveries reach it one at
/// a time and none is lost or taken twice; where probes finish side by
/// side, the one who schedules them hands their outcomes over in turn. The
/// aggregator knows nothing of probes in flight: when a scan is complete is
/// for the scheduler to say.
pub struct ResultAggregator {
    open: Vec<u16>,
    closed_or_filtered: u64,
    timed_out: u64,
    errors: u64,
    log: Ghost<Seq<(u16, OutcomeKind)>>,
}

impl View for ResultAggregator {
    type V = Seq<(u16, OutcomeKind)>;

    /// The deliveries so far, oldest first.
    closed spec fn view(&self) -> Seq<(u16, OutcomeKind)> {
        self.log@
    }
}

impl ResultAggregator {
    /// The fields agree with the tally of the deliveries, and every
    /// delivery is for a port, which 0 is not.
    pub closed spec fn wf(&self) -> bool {
        &&& self.log@.len() <= u64::MAX
        &&& forall|i: int| 0 <= i < self.log@.len() ==> (#[trigger] self.log@[i]).0 >= 1
        &&& self.open@.len() + self.closed_or_filtered + self.timed_out + self.errors
            == self.log@.len()
        &&& tally_of(self.log@) == (Tally {
            open: self.open@.to_set(),
            closed_or_filtered: self.closed_or_filtered as nat,
            timed_out: self.timed_out as nat,
            errors: self.errors as nat,
        })
    }

    /// An aggregator that has heard nothing yet.
    pub fn new() -> (aggregator: ResultAggregator)
        ensures
            aggregator.wf(),
            aggregator@ == Seq::<(u16, OutcomeKind)>::empty(),
    {
        let aggregator = ResultAggregator {
            open: Vec::new(),
            closed_or_filtered: 0,
            timed_out: 0,
            errors: 0,
            log: Ghost(Seq::empty()),
        };
        assert(aggregator.open@.to_set() =~= Set::<u16>::empty());
        aggregator
    }

    /// The number of outcomes delivered so far.
    pub fn delivered(&self) -> (n: u64)
        requires
            self.wf(),
        ensures
            n == self@.len(),
    {
        self.open.len() as u64 + self.closed_or_filtered + self.timed_out + self.errors
    }

    /// Takes the outcome of the probe of `port`, which is a port number
    /// from 1 to 65535. Only an open port is kept by number; of the other
    /// outcomes the class is counted and the rest, an error's reason too,
    /// is let go.
    pub fn add(&mut self, port: u16, outcome: ProbeOutcome)
        requires
            old(self).wf(),
            old(self)@.len() < u64::MAX,
            port >= 1,
        ensures
            final(self).wf(),
            final(self)@ == old(self)@.push((port, outcome.class())),
    {
        let kind = outcome.kind();
        proof {
            let before = self.log@;
            let after = before.push((port, kind));
            assert(after.drop_last() == before);
            self.open@.lemma_push_to_set_commute(port);
            self.log = Ghost(after);
        }
        match kind {
            OutcomeKind::Open => {
                self.open.push(port);
            },
            OutcomeKind::ClosedOrFiltered => {
                self.closed_or_filtered = self.closed_or_filtered + 1;
            },
            OutcomeKind::TimedOut => {
                self.timed_out = self.timed_out + 1;
            },
            OutcomeKind::Error => {
                self.errors = self.errors + 1;
            },
        }
    }

    /// The report of a scan that ran to its end: the open ports sorted
    /// ascending with duplicates dropped, their text, and the counts. The
    /// order is made here, at the end, from what was delivered; it owes
    /// nothing to the order of arrival.
    pub fn finalize(&self) -> (report: ScanReport)
        requires
            self.wf(),
        ensures
            report@ == report_of(tally_of(self@), false),
            report@.canonical(),
    {
        self.build(false)
    }

    /// The report of a scan that was cut short. It holds what had been
    /// delivered by then and is marked as partial.
    pub fn finalize_partial(&self) -> (report: ScanReport)
        requires
            self.wf(),
        ensures
            report@ == report_of(tally_of(self@), true),
            report@.canonical(),
    {
        self.build(true)
    }

    /// Every delivery is for a port from 1 to 65535.
    pub proof fn lemma_delivered_ports(&self)
        requires
            self.wf(),
        ensures
            forall|i: int| 0 <= i < self@.len() ==> (#[trigger] self@[i]).0 >= 1,
    {
    }

    fn build(&self, partial: bool) -> (report: ScanReport)
        requires
            self.wf(),
        ensures
            report@ == report_of(tally_of(self@), partial),
            report@.canonical(),
    {
        proof {
            self.lemma_delivered_ports();
            lemma_tally_counts(self@);
            lemma_report_canonical(tally_of(self@), partial);
        }
        let open_ports = sorted_unique(&self.open);
        let rendered = join_ports(&open_ports);
        ScanReport {
            open_ports,
            rendered,
            closed_or_filtered: self.closed_or_filtered,
            timed_out: self.timed_out,
            errors: self.errors,
            partial,
        }
    }
}

/// Hearing one more delivery records it on the tally so far.
pub proof fn lemma_tally_push(log: Seq<(u16, OutcomeKind)>, port: u16, kind: OutcomeKind)
    ensures
        tally_of(log.push((port, kind))) == tally_of(log).record(port, kind),
{
    assert(log.push((port, kind)).drop_last() == log);
}

/// Two deliveries may be recorded in either order.
pub proof fn lemma_record_commutes(
    tally: Tally,
    port_a: u16,
    kind_a: OutcomeKind,
    port_b: u16,
    kind_b: OutcomeKind,
)
    ensures
        tally.record(port_a, kind_a).record(port_b, kind_b) == tally.record(port_b, kind_b).record(
            port_a,
            kind_a,
        ),
{
    assert(tally.open.insert(port_a).insert(port_b) =~= tally.open.insert(port_b).insert(port_a));
}

/// Any delivery of a log may be taken as the one that came last.
pub proof fn lemma_tally_remove(log: Seq<(u16, OutcomeKind)>, at: int)
    requires
        0 <= at < log.len(),
    ensures
        tally_of(log) == tally_of(log.remove(at)).record(log[at].0, log[at].1),
    decreases log.len(),
{
    if at == log.len() - 1 {
        assert(log.remove(at) == log.drop_last());
    } else {
        let earlier = log.drop_last();
        let rest = log.remove(at);
        lemma_tally_remove(earlier, at);
        assert(rest.drop_last() == earlier.remove(at));
        assert(rest.last() == log.last());
        lemma_record_commutes(
            tally_of(earlier.remove(at)),
            log[at].0,
            log[at].1,
            log.last().0,
            log.last().1,
        );
    }
}

/// The tally does not depend on the order of arrival: two logs that hold
/// the same deliveries, each as often as the other, have the same tally.
pub proof fn lemma_tally_ignores_order(a: Seq<(u16, OutcomeKind)>, b: Seq<(u16, OutcomeKind)>)
    requires
        a.to_multiset() == b.to_multiset(),
    ensures
        tally_of(a) == tally_of(b),
    decreases a.len(),
{
    broadcast use {to_multiset_len, to_multiset_contains, to_multiset_remove};

    assert(a.len() == b.len()) by {
        assert(a.len() == a.to_multiset().len());
        assert(b.len() == b.to_multiset().len());
    }
    if a.len() > 0 {
        let last = a.last();
        assert(a.contains(last)) by {
            assert(a[a.len() - 1] == last);
        }
        assert(a.to_multiset().count(last) > 0);
        assert(b.to_multiset().count(last) > 0);
        assert(b.contains(last));
        let at = choose|at: int| 0 <= at < b.len() && b[at] == last;
        assert(a.drop_last() == a.remove(a.len() - 1));
        assert(a.remove(a.len() - 1).to_multiset() == a.to_multiset().remove(last));
        assert(b.remove(at).to_multiset() == b.to_multiset().remove(last));
        lemma_tally_ignores_order(a.drop_last(), b.remove(at));
        lemma_tally_remove(b, at);
    }
}

/// The report, its text included, does not depend on the order in which
/// the probes finished.
pub proof fn lemma_report_ignores_order(
    a: Seq<(u16, OutcomeKind)>,
    b: Seq<(u16, OutcomeKind)>,
    partial: bool,
)
    requires
        a.to_multiset() == b.to_multiset(),
    ensures
        report_of(tally_of(a), partial) == report_of(tally_of(b), partial),
        report_of(tally_of(a), partial).text == report_of(tally_of(b), partial).text,
{
    lemma_tally_ignores_order(a, b);
}

/// Aggregating is repeatable: two aggregators that were fed the same
/// deliveries give reports that agree in every part, the text included.
pub proof fn lemma_same_deliveries_same_report(
    first: ResultAggregator,
    second: ResultAggregator,
    first_report: ScanReport,
    second_report: ScanReport,
)
    requires
        first@ == second@,
        first_report@ == report_of(tally_of(first@), false),
        second_report@ == report_of(tally_of(second@), false),
    ensures
        first_report@ == second_report@,
        first_report@.text == second_report@.text,
{
}

/// The report of a tally of ports is canonical: its open ports are those
/// of the tally, they ascend strictly, and its text is their rendering.
pub proof fn lemma_report_canonical(tally: Tally, partial: bool)
    requires
        !tally.open.contains(0),
    ensures
        report_of(tally, partial).canonical(),
        report_of(tally, partial).open_ports.to_set() == tally.open,
{
    lemma_ascending(tally.open);
    let listed = report_of(tally, partial).open_ports;
    assert forall|i: int| 0 <= i < listed.len() implies listed[i] >= 1 by {
        assert(listed.to_set().contains(listed[i]));
    }
}

/// With nothing found open the text of the report is empty.
pub proof fn lemma_nothing_open_renders_empty(tally: Tally, partial: bool)
    requires
        tally.open == Set::<u16>::empty(),
    ensures
        report_of(tally, partial).open_ports == Seq::<u16>::empty(),
        report_of(tally, partial).text == Seq::<char>::empty(),
{
    lemma_ascending(tally.open);
    let listed = ascending(tally.open);
    if listed.len() > 0 {
        assert(listed.to_set().contains(listed[0]));
    }
    assert(listed =~= Seq::<u16>::empty());
}

/// What a tally holds, said without recursion: a port is in the open set
/// exactly when an open outcome was delivered for it, and each count is
/// the number of deliveries of its class. Nothing delivered is lost: the
/// classes together account for every delivery.
pub proof fn lemma_tally_counts(log: Seq<(u16, OutcomeKind)>)
    ensures
        tally_of(log).open.finite(),
        forall|p: u16| #[trigger]
            tally_of(log).open.contains(p) <==> log.contains((p, OutcomeKind::Open)),
        tally_of(log).closed_or_filtered == count_of(log, OutcomeKind::ClosedOrFiltered),
        tally_of(log).timed_out == count_of(log, OutcomeKind::TimedOut),
        tally_of(log).errors == count_of(log, OutcomeKind::Error),
        tally_of(log).open.len() <= count_of(log, OutcomeKind::Open),
        count_of(log, OutcomeKind::Open) + count_of(log, OutcomeKind::ClosedOrFiltered) + count_of(
            log,
            OutcomeKind::TimedOut,
        ) + count_of(log, OutcomeKind::Error) == log.len(),
    decreases log.len(),
{
    if log.len() > 0 {
        let earlier = log.drop_last();
        lemma_tally_counts(earlier);
        assert forall|p: u16| #[trigger]
            tally_of(log).open.contains(p) <==> log.contains((p, OutcomeKind::Open)) by {
            let wanted = (p, OutcomeKind::Open);
            if earlier.contains(wanted) {
                let i = choose|i: int| 0 <= i < earlier.len() && earlier[i] == wanted;
                assert(log[i] == wanted);
            }
            if log.contains(wanted) {
                let i = choose|i: int| 0 <= i < log.len() && log[i] == wanted;
                if i < earlier.len() {
                    assert(earlier[i] == wanted);
                }
            }
            if log.last() == wanted {
                assert(log[log.len() - 1] == wanted);
            }
        }
    }
}

/// Where no port was delivered twice, the open ports are as many as the
/// open outcomes, so that the open ports and the three counts together
/// are as many as the deliveries.
pub proof fn lemma_tally_of_distinct_ports(log: Seq<(u16, OutcomeKind)>)
    requires
        ports_of(log).no_duplicates(),
    ensures
        tally_of(log).open.finite(),
        tally_of(log).open.len() == count_of(log, OutcomeKind::Open),
        tally_of(log).open.len() + tally_of(log).closed_or_filtered + tally_of(log).timed_out
            + tally_of(log).errors == log.len(),
    decreases log.len(),
{
    lemma_tally_counts(log);
    if log.len() > 0 {
        let earlier = log.drop_last();
        assert forall|i: int, j: int|
            0 <= i < ports_of(earlier).len() && 0 <= j < ports_of(earlier).len() && i
                != j implies ports_of(earlier)[i] != ports_of(earlier)[j] by {
            assert(ports_of(log)[i] == ports_of(earlier)[i]);
            assert(ports_of(log)[j] == ports_of(earlier)[j]);
        }
        lemma_tally_of_distinct_ports(earlier);
        lemma_tally_counts(earlier);
        let port = log.last().0;
        if log.last().1 == OutcomeKind::Open {
            if tally_of(earlier).open.contains(port) {
                let i = choose|i: int|
                    0 <= i < earlier.len() && earlier[i] == (port, OutcomeKind::Open);
                assert(ports_of(log)[i] == port);
                assert(ports_of(log)[log.len() - 1] == port);
            }
        }
    }
}

} // verus!

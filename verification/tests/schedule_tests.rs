use portscan::aggregate::ScanReport;
use portscan::error::ScanError;
use portscan::outcome::{classify, ConnectEvent, ProbeOutcome};
use portscan::range::PortRange;
use portscan::schedule::{
    Action, ProbeScheduler, DEFAULT_CONCURRENCY_LIMIT, DEFAULT_TIMEOUT_SECS,
};

/// What a run of a scheduler looked like from outside.
struct Run {
    report: ScanReport,
    probed: Vec<u16>,
    most_in_flight: usize,
}

/// Drives a scheduler to its end against a host on which the ports of
/// `listening` accept connections and all others refuse. Of the probes in
/// flight the one started last finishes first, unless `oldest_first`.
fn drive(mut scheduler: ProbeScheduler, listening: &[u16], oldest_first: bool) -> Run {
    let mut pending: Vec<u16> = Vec::new();
    let mut probed: Vec<u16> = Vec::new();
    let mut most_in_flight = 0;
    loop {
        match scheduler.next_action() {
            Action::Probe(probe) => {
                assert_eq!(probe.timeout_secs(), scheduler.timeout_secs());
                pending.push(probe.port());
                probed.push(probe.port());
                assert_eq!(scheduler.in_flight(), pending.len());
                if pending.len() > most_in_flight {
                    most_in_flight = pending.len();
                }
            }
            Action::Wait => {
                assert!(!pending.is_empty());
                let port = if oldest_first { pending.remove(0) } else { pending.pop().unwrap() };
                let event = if listening.contains(&port) {
                    ConnectEvent::Connected
                } else {
                    ConnectEvent::Refused
                };
                assert!(scheduler.complete(port, classify(event)));
            }
            Action::Finished => break,
        }
    }
    assert!(pending.is_empty());
    Run { report: scheduler.finish().unwrap(), probed, most_in_flight }
}

#[test]
fn scan_finds_the_one_listener() {
    let scheduler = ProbeScheduler::configure(1, 10, 1, 4).unwrap();
    let run = drive(scheduler, &[7], false);
    assert_eq!(run.report.rendered(), "7");
    assert_eq!(run.report.open_ports(), &vec![7]);
    assert_eq!(run.report.closed_or_filtered(), 9);
    assert!(!run.report.is_partial());
}

#[test]
fn scan_without_listeners_reports_nothing_open() {
    let scheduler = ProbeScheduler::configure(1, 5, 1, 2).unwrap();
    let run = drive(scheduler, &[], false);
    assert_eq!(run.report.rendered(), "");
    assert!(run.report.open_ports().is_empty());
    assert_eq!(run.report.closed_or_filtered() + run.report.timed_out(), 5);
    assert_eq!(run.report.errors(), 0);
}

#[test]
fn scan_reports_in_ascending_order_not_arrival_order() {
    let scheduler = ProbeScheduler::configure(1, 3, 1, 3).unwrap();
    let run = drive(scheduler, &[1, 3], false);
    assert_eq!(run.report.rendered(), "1,3");
    let scheduler = ProbeScheduler::configure(1, 3, 1, 3).unwrap();
    let run = drive(scheduler, &[3, 1], true);
    assert_eq!(run.report.rendered(), "1,3");
}

#[test]
fn scan_with_timeouts_and_errors_still_reports() {
    let mut scheduler = ProbeScheduler::configure(1, 4, 1, 4).unwrap();
    for _ in 0..4 {
        assert!(matches!(scheduler.next_action(), Action::Probe(_)));
    }
    assert!(scheduler.complete(3, ProbeOutcome::Error(String::from("no buffer space"))));
    assert!(scheduler.complete(1, ProbeOutcome::TimedOut));
    assert!(scheduler.complete(4, ProbeOutcome::TimedOut));
    assert!(scheduler.complete(2, ProbeOutcome::ClosedOrFiltered));
    assert_eq!(scheduler.next_action(), Action::Finished);
    let report = scheduler.finish().unwrap();
    assert_eq!(report.rendered(), "");
    assert_eq!(report.timed_out(), 2);
    assert_eq!(report.errors(), 1);
    assert_eq!(report.closed_or_filtered(), 1);
    assert!(!report.is_partial());
}

#[test]
fn every_port_of_the_range_is_probed_once() {
    let scheduler = ProbeScheduler::configure(100, 400, 5, 16).unwrap();
    let run = drive(scheduler, &[200, 300], false);
    let mut probed = run.probed.clone();
    probed.sort();
    let expected: Vec<u16> = (100..=400).collect();
    assert_eq!(probed, expected);
    let classified = run.report.open_ports().len() as u64
        + run.report.closed_or_filtered()
        + run.report.timed_out()
        + run.report.errors();
    assert_eq!(classified, 301);
    assert_eq!(run.report.rendered(), "200,300");
}

#[test]
fn ports_are_started_in_ascending_order() {
    let scheduler = ProbeScheduler::configure(5, 9, 1, 2).unwrap();
    let run = drive(scheduler, &[], true);
    assert_eq!(run.probed, vec![5, 6, 7, 8, 9]);
}

#[test]
fn in_flight_never_exceeds_the_limit() {
    for limit in [1usize, 2, 3, 7, 50, 1000] {
        let scheduler = ProbeScheduler::configure(1, 300, 1, limit).unwrap();
        let run = drive(scheduler, &[80], false);
        assert!(run.most_in_flight <= limit);
        assert_eq!(run.most_in_flight, limit.min(300));
        assert_eq!(run.report.rendered(), "80");
    }
}

#[test]
fn at_the_limit_the_scheduler_waits() {
    let mut scheduler = ProbeScheduler::configure(1, 10, 1, 2).unwrap();
    assert!(matches!(scheduler.next_action(), Action::Probe(_)));
    assert!(matches!(scheduler.next_action(), Action::Probe(_)));
    assert_eq!(scheduler.next_action(), Action::Wait);
    assert_eq!(scheduler.next_action(), Action::Wait);
    assert_eq!(scheduler.in_flight(), 2);
    assert_eq!(scheduler.started(), 2);
    assert!(scheduler.complete(1, ProbeOutcome::ClosedOrFiltered));
    assert_eq!(scheduler.in_flight(), 1);
    match scheduler.next_action() {
        Action::Probe(probe) => assert_eq!(probe.port(), 3),
        other => panic!("expected a probe, got {:?}", other),
    }
    assert_eq!(scheduler.next_action(), Action::Wait);
}

#[test]
fn full_scan_of_all_ports_with_defaults() {
    let scheduler = ProbeScheduler::with_defaults();
    assert_eq!(scheduler.limit(), 1000);
    assert_eq!(scheduler.limit(), DEFAULT_CONCURRENCY_LIMIT);
    assert_eq!(scheduler.timeout_secs(), 10);
    assert_eq!(scheduler.timeout_secs(), DEFAULT_TIMEOUT_SECS);
    assert_eq!(scheduler.range().start(), 1);
    assert_eq!(scheduler.range().end(), 65535);
    let run = drive(scheduler, &[65535, 22, 1], false);
    assert_eq!(run.probed.len(), 65535);
    assert_eq!(run.most_in_flight, 1000);
    assert_eq!(run.report.rendered(), "1,22,65535");
    assert_eq!(run.report.closed_or_filtered(), 65532);
}

#[test]
fn inverted_range_is_refused_before_any_probe() {
    assert_eq!(ProbeScheduler::configure(100, 1, 10, 1000).err(), Some(ScanError::InvalidRange));
}

#[test]
fn zero_bound_is_refused() {
    assert_eq!(ProbeScheduler::configure(0, 10, 10, 1000).err(), Some(ScanError::InvalidRange));
}

#[test]
fn zero_timeout_is_refused() {
    assert_eq!(ProbeScheduler::configure(1, 10, 0, 1000).err(), Some(ScanError::InvalidTimeout));
    let range = PortRange::new(1, 10).unwrap();
    assert_eq!(ProbeScheduler::new(range, 0, 5).err(), Some(ScanError::InvalidTimeout));
}

#[test]
fn zero_limit_is_refused() {
    assert_eq!(
        ProbeScheduler::configure(1, 10, 10, 0).err(),
        Some(ScanError::InvalidConcurrencyLimit)
    );
    let range = PortRange::new(1, 10).unwrap();
    assert_eq!(ProbeScheduler::new(range, 3, 0).err(), Some(ScanError::InvalidConcurrencyLimit));
}

#[test]
fn range_is_checked_first_then_timeout_then_limit() {
    assert_eq!(ProbeScheduler::configure(9, 1, 0, 0).err(), Some(ScanError::InvalidRange));
    assert_eq!(ProbeScheduler::configure(1, 9, 0, 0).err(), Some(ScanError::InvalidTimeout));
    let range = PortRange::new(1, 10).unwrap();
    assert_eq!(ProbeScheduler::new(range, 0, 0).err(), Some(ScanError::InvalidTimeout));
}

#[test]
fn fresh_scheduler_has_done_nothing() {
    let scheduler = ProbeScheduler::configure(1, 10, 2, 3).unwrap();
    assert_eq!(scheduler.started(), 0);
    assert_eq!(scheduler.in_flight(), 0);
    assert_eq!(scheduler.delivered(), 0);
    assert!(!scheduler.is_cancelled());
    assert!(!scheduler.is_settled());
    assert_eq!(scheduler.finish().err(), Some(ScanError::IncompleteScan));
}

#[test]
fn report_before_the_end_is_incomplete() {
    let mut scheduler = ProbeScheduler::configure(1, 2, 1, 2).unwrap();
    assert_eq!(scheduler.finish().err(), Some(ScanError::IncompleteScan));
    assert!(matches!(scheduler.next_action(), Action::Probe(_)));
    assert!(matches!(scheduler.next_action(), Action::Probe(_)));
    assert_eq!(scheduler.finish().err(), Some(ScanError::IncompleteScan));
    assert!(scheduler.complete(1, ProbeOutcome::Open));
    assert_eq!(scheduler.finish().err(), Some(ScanError::IncompleteScan));
    assert!(scheduler.complete(2, ProbeOutcome::Open));
    assert!(scheduler.is_settled());
    assert_eq!(scheduler.finish().unwrap().rendered(), "1,2");
}

#[test]
fn outcome_of_an_unknown_probe_is_turned_away() {
    let mut scheduler = ProbeScheduler::configure(1, 5, 1, 5).unwrap();
    assert!(!scheduler.complete(1, ProbeOutcome::Open));
    assert!(matches!(scheduler.next_action(), Action::Probe(_)));
    assert!(scheduler.is_outstanding(1));
    assert!(!scheduler.is_outstanding(2));
    assert!(!scheduler.complete(2, ProbeOutcome::Open));
    assert!(!scheduler.complete(9, ProbeOutcome::Open));
    assert!(scheduler.complete(1, ProbeOutcome::Open));
    assert!(!scheduler.is_outstanding(1));
    assert!(!scheduler.complete(1, ProbeOutcome::Open));
    assert_eq!(scheduler.delivered(), 1);
    assert_eq!(scheduler.in_flight(), 0);
}

#[test]
fn cancelled_scan_gives_a_partial_report() {
    let mut scheduler = ProbeScheduler::configure(1, 100, 1, 3).unwrap();
    assert!(matches!(scheduler.next_action(), Action::Probe(_)));
    assert!(matches!(scheduler.next_action(), Action::Probe(_)));
    assert!(matches!(scheduler.next_action(), Action::Probe(_)));
    assert!(scheduler.complete(2, ProbeOutcome::Open));
    scheduler.cancel();
    assert!(scheduler.is_cancelled());
    assert!(scheduler.is_settled());
    assert_eq!(scheduler.next_action(), Action::Finished);
    assert!(!scheduler.complete(1, ProbeOutcome::Open));
    assert!(!scheduler.complete(3, ProbeOutcome::Open));
    let report = scheduler.finish().unwrap();
    assert!(report.is_partial());
    assert_eq!(report.rendered(), "2");
    assert_eq!(scheduler.delivered(), 1);
    assert_eq!(scheduler.started(), 3);
}

#[test]
fn cancelling_twice_changes_nothing() {
    let mut scheduler = ProbeScheduler::configure(1, 3, 1, 1).unwrap();
    scheduler.cancel();
    scheduler.cancel();
    assert!(scheduler.is_cancelled());
    assert_eq!(scheduler.next_action(), Action::Finished);
    let report = scheduler.finish().unwrap();
    assert!(report.is_partial());
    assert_eq!(report.rendered(), "");
}

#[test]
fn two_runs_against_the_same_host_give_the_same_text() {
    let first = drive(ProbeScheduler::configure(1, 50, 1, 8).unwrap(), &[9, 40, 3], false);
    let second = drive(ProbeScheduler::configure(1, 50, 1, 3).unwrap(), &[40, 3, 9], true);
    assert_eq!(first.report.rendered(), "3,9,40");
    assert_eq!(first.report.rendered(), second.report.rendered());
}

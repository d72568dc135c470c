use portscan::error::ScanError;
use portscan::outcome::{classify, ConnectEvent, ConnectProbe, OutcomeKind, ProbeOutcome};

#[test]
fn connection_means_open() {
    assert_eq!(classify(ConnectEvent::Connected), ProbeOutcome::Open);
}

#[test]
fn refusal_means_closed_or_filtered() {
    assert_eq!(classify(ConnectEvent::Refused), ProbeOutcome::ClosedOrFiltered);
}

#[test]
fn unreachable_host_means_closed_or_filtered() {
    assert_eq!(classify(ConnectEvent::HostUnreachable), ProbeOutcome::ClosedOrFiltered);
}

#[test]
fn unreachable_network_means_closed_or_filtered() {
    assert_eq!(classify(ConnectEvent::NetworkUnreachable), ProbeOutcome::ClosedOrFiltered);
}

#[test]
fn timeout_of_the_system_means_timed_out() {
    assert_eq!(classify(ConnectEvent::TimedOut), ProbeOutcome::TimedOut);
}

#[test]
fn elapsed_timer_means_timed_out() {
    assert_eq!(classify(ConnectEvent::Elapsed), ProbeOutcome::TimedOut);
}

#[test]
fn other_failure_keeps_its_reason() {
    let event = ConnectEvent::Failed(String::from("address family not supported"));
    assert_eq!(
        classify(event),
        ProbeOutcome::Error(String::from("address family not supported"))
    );
}

#[test]
fn kind_drops_the_reason() {
    assert_eq!(ProbeOutcome::Open.kind(), OutcomeKind::Open);
    assert_eq!(ProbeOutcome::ClosedOrFiltered.kind(), OutcomeKind::ClosedOrFiltered);
    assert_eq!(ProbeOutcome::TimedOut.kind(), OutcomeKind::TimedOut);
    assert_eq!(ProbeOutcome::Error(String::from("x")).kind(), OutcomeKind::Error);
}

#[test]
fn only_open_is_open() {
    assert!(ProbeOutcome::Open.is_open());
    assert!(!ProbeOutcome::ClosedOrFiltered.is_open());
    assert!(!ProbeOutcome::TimedOut.is_open());
    assert!(!ProbeOutcome::Error(String::new()).is_open());
}

#[test]
fn probe_keeps_port_and_timeout() {
    let probe = ConnectProbe::new(22, 10).unwrap();
    assert_eq!(probe.port(), 22);
    assert_eq!(probe.timeout_secs(), 10);
}

#[test]
fn probe_without_timeout_is_invalid() {
    assert_eq!(ConnectProbe::new(22, 0).err(), Some(ScanError::InvalidTimeout));
}

#[test]
fn probe_with_the_shortest_timeout_is_valid() {
    assert!(ConnectProbe::new(1, 1).is_ok());
    assert!(ConnectProbe::new(65535, u64::MAX).is_ok());
}

#[test]
fn probe_concludes_for_its_own_port() {
    let probe = ConnectProbe::new(8080, 3).unwrap();
    assert_eq!(probe.conclude(ConnectEvent::Connected), (8080, ProbeOutcome::Open));
    assert_eq!(probe.conclude(ConnectEvent::Elapsed), (8080, ProbeOutcome::TimedOut));
    assert_eq!(
        probe.conclude(ConnectEvent::Failed(String::from("boom"))),
        (8080, ProbeOutcome::Error(String::from("boom")))
    );
}

//! One connection attempt and what it tells about a port.
//!
//! The attempt itself, a TCP connect raced against a timer, is made by the
//! caller. It reports what it saw as a [`ConnectEvent`]; the rules that turn
//! the event into a [`ProbeOutcome`] are here.

use vstd::prelude::*;
use crate::error::ScanError;

verus! {

/// What a connection attempt ran into.
#[derive(Clone, Debug, PartialEq, Eq)]
pub enum ConnectEvent {
    /// The connection was established before the timeout.
    Connected,
    /// The peer actively refused the connection.
    Refused,
    /// The host could not be reached.
    HostUnreachable,
    /// The network of the host could not be reached.
    NetworkUnreachable,
    /// The system gave up waiting for an answer before the probe's own
    /// timeout had elapsed.
    TimedOut,
    /// The probe's timeout elapsed first.
    Elapsed,
    /// Any other failure, with the reason as the system words it.
    Failed(String),
}

/// How a probed port is classified.
#[derive(Clone, Debug, PartialEq, Eq)]
pub enum ProbeOutcome {
    /// Something accepts connections on the port.
    Open,
    /// The attempt was refused or the host was unreachable.
    ClosedOrFiltered,
    /// Nothing came back within the timeout.
    TimedOut,
    /// The attempt failed for another reason.
    Error(String),
}

/// The class of an outcome, without the reason of an error.
#[derive(Clone, Copy, Debug, PartialEq, Eq, Structural)]
pub enum OutcomeKind {
    Open,
    ClosedOrFiltered,
    TimedOut,
    Error,
}

impl ProbeOutcome {
    /// The class the outcome belongs to.
    pub open spec fn class(self) -> OutcomeKind {
        match self {
            ProbeOutcome::Open => OutcomeKind::Open,
            ProbeOutcome::ClosedOrFiltered => OutcomeKind::ClosedOrFiltered,
            ProbeOutcome::TimedOut => OutcomeKind::TimedOut,
            ProbeOutcome::Error(_) => OutcomeKind::Error,
        }
    }

    /// The class the outcome belongs to.
    pub fn kind(&self) -> (k: OutcomeKind)
        ensures
            k == self.class(),
    {
        match self {
            ProbeOutcome::Open => OutcomeKind::Open,
            ProbeOutcome::ClosedOrFiltered => OutcomeKind::ClosedOrFiltered,
            ProbeOutcome::TimedOut => OutcomeKind::TimedOut,
            ProbeOutcome::Error(_) => OutcomeKind::Error,
        }
    }

    /// Whether the port was found open.
    pub fn is_open(&self) -> (b: bool)
        ensures
            b == (self.class() == OutcomeKind::Open),
    {
        match self {
            ProbeOutcome::Open => true,
            _ => false,
        }
    }
}

/// The outcome that an event stands for: a connection means open; a
/// refusal, an unreachable host or an unreachable network means closed or
/// filtered; a timeout, the probe's own or the system's, means timed out;
/// and every other failure is an error that keeps its reason.
pub open spec fn classified(event: ConnectEvent) -> ProbeOutcome {
    match event {
        ConnectEvent::Connected => ProbeOutcome::Open,
        ConnectEvent::Refused => ProbeOutcome::ClosedOrFiltered,
        ConnectEvent::HostUnreachable => ProbeOutcome::ClosedOrFiltered,
        ConnectEvent::NetworkUnreachable => ProbeOutcome::ClosedOrFiltered,
        ConnectEvent::TimedOut => ProbeOutcome::TimedOut,
        ConnectEvent::Elapsed => ProbeOutcome::TimedOut,
        ConnectEvent::Failed(reason) => ProbeOutcome::Error(reason),
    }
}

/// Classifies a connection attempt.
pub fn classify(event: ConnectEvent) -> (outcome: ProbeOutcome)
    ensures
        outcome == classified(event),
{
    match event {
        ConnectEvent::Connected => ProbeOutcome::Open,
        ConnectEvent::Refused => ProbeOutcome::ClosedOrFiltered,
        ConnectEvent::HostUnreachable => ProbeOutcome::ClosedOrFiltered,
        ConnectEvent::NetworkUnreachable => ProbeOutcome::ClosedOrFiltered,
        ConnectEvent::TimedOut => ProbeOutcome::TimedOut,
        ConnectEvent::Elapsed => ProbeOutcome::TimedOut,
        ConnectEvent::Failed(reason) => ProbeOutcome::Error(reason),
    }
}

/// The parameters of one liveness probe: which port to try and how long to
/// wait. A probe is made once and never retried.
#[derive(Clone, Copy, Debug, PartialEq, Eq)]
pub struct ConnectProbe {
    port: u16,
    timeout_secs: u64,
}

impl ConnectProbe {
    /// The port to connect to.
    pub closed spec fn target_port(&self) -> u16 {
        self.port
    }

    /// The seconds to wait for the connection.
    pub closed spec fn patience(&self) -> u64 {
        self.timeout_secs
    }

    /// A probe of `port` with a timeout that is known to be positive.
    pub(crate) fn with_timeout(port: u16, timeout_secs: u64) -> (probe: ConnectProbe)
        requires
            timeout_secs > 0,
        ensures
            probe.target_port() == port,
            probe.patience() == timeout_secs,
    {
        ConnectProbe { port, timeout_secs }
    }

    /// A probe of `port` that gives up after `timeout_secs` seconds. A
    /// timeout of 0 is refused.
    pub fn new(port: u16, timeout_secs: u64) -> (r: Result<ConnectProbe, ScanError>)
        ensures
            r is Ok <==> timeout_secs > 0,
            r matches Ok(probe) ==> probe.target_port() == port && probe.patience()
                == timeout_secs,
            r matches Err(e) ==> e == ScanError::InvalidTimeout,
    {
        if timeout_secs == 0 {
            Err(ScanError::InvalidTimeout)
        } else {
            Ok(ConnectProbe { port, timeout_secs })
        }
    }

    /// The port to connect to.
    pub fn port(&self) -> (p: u16)
        ensures
            p == self.target_port(),
    {
        self.port
    }

    /// The seconds to wait for the connection.
    pub fn timeout_secs(&self) -> (t: u64)
        ensures
            t == self.patience(),
    {
        self.timeout_secs
    }

    /// The probe's result for the event that its attempt ran into: the port
    /// together with the outcome it is classified as.
    pub fn conclude(&self, event: ConnectEvent) -> (result: (u16, ProbeOutcome))
        ensures
            result.0 == self.target_port(),
            result.1 == classified(event),
    {
        (self.port, classify(event))
    }
}

} // verus!

//! Errors reported by the scan engine.

use vstd::prelude::*;

verus! {

/// Why a scan could not be set up, or could not be closed.
///
/// The first three variants are configuration errors: they are reported
/// before any probe is started. Outcomes of single probes are never errors;
/// they are data (see [`crate::outcome::ProbeOutcome`]).
#[derive(Clone, Copy, Debug, PartialEq, Eq, Structural)]
pub enum ScanError {
    /// A bound of the port range is 0, or the range starts after its end.
    InvalidRange,
    /// The per-probe timeout is not positive.
    InvalidTimeout,
    /// The concurrency limit is 0.
    InvalidConcurrencyLimit,
    /// The report was asked for while ports were still unprobed or probes
    /// still in flight.
    IncompleteScan,
}

impl ScanError {
    /// True of the errors that stop a scan before it starts.
    pub open spec fn is_configuration(self) -> bool {
        self != ScanError::IncompleteScan
    }

    /// Tells whether the error is one of the configuration errors.
    pub fn is_configuration_error(&self) -> (b: bool)
        ensures
            b == self.is_configuration(),
    {
        match self {
            ScanError::IncompleteScan => false,
            _ => true,
        }
    }
}

} // verus!

//! The health endpoint's report.

use vstd::prelude::*;

verus! {

/// Whether the service and its upstream source are reachable.
#[derive(Clone, Copy, Debug, PartialEq, Eq, Structural)]
pub enum ServiceStatus {
    OK,
    _SourceUnavailable,
}

/// The health report body.
#[derive(Clone, Copy, Debug, PartialEq, Eq, Structural)]
pub struct ServiceHealth {
    pub status: ServiceStatus,
}

/// The service reports itself healthy.
pub fn service_health() -> (r: ServiceHealth)
    ensures
        r.status == ServiceStatus::OK,
{
    ServiceHealth { status: ServiceStatus::OK }
}

} // verus!

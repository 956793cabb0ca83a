//! Immutable per-service configuration and the timeout selection rule.

use vstd::prelude::*;

verus! {

/// Stable identifier of a unit in the registry.
pub type UnitId = u64;

/// How a service signals readiness.
#[derive(Clone, Copy, Debug, PartialEq, Eq, Structural)]
pub enum ServiceType {
    /// Running as soon as the process is forked.
    Simple,
    /// Running once `READY=1` arrives on the notification socket.
    Notify,
    /// Running once the configured bus name is observed.
    Dbus,
}

/// A configured timeout: a bounded duration in milliseconds, or none at all.
#[derive(Clone, Copy, Debug, PartialEq, Eq, Structural)]
pub enum Timeout {
    Duration(u64),
    Infinity,
}

/// Command lines and supervision policy of one service, fixed at load time.
/// Command lines are byte strings split on single spaces when spawned.
pub struct ServiceConfig {
    /// The main command of the service.
    pub cmd: Vec<u8>,
    /// Helper commands run before the main process is forked.
    pub startpre: Vec<Vec<u8>>,
    /// Helper commands run after readiness.
    pub startpost: Vec<Vec<u8>>,
    /// Helper commands run to stop the service.
    pub stop: Vec<Vec<u8>>,
    /// Helper commands run after the process group is gone.
    pub stoppost: Vec<Vec<u8>>,
    pub srcv_type: ServiceType,
    /// Bus name awaited by `Dbus` services.
    pub dbus_name: Option<Vec<u8>>,
    /// Restart the service whenever its process exits.
    pub keep_alive: bool,
    pub starttimeout: Option<Timeout>,
    pub stoptimeout: Option<Timeout>,
    pub generaltimeout: Option<Timeout>,
}

/// Timeout resolution: the phase-specific setting wins, then the general
/// one; a missing setting or an explicit `Infinity` means unbounded (`None`).
pub open spec fn effective_timeout(specific: Option<Timeout>, general: Option<Timeout>) -> Option<
    u64,
> {
    match specific {
        Some(Timeout::Duration(d)) => Some(d),
        Some(Timeout::Infinity) => None,
        None => match general {
            Some(Timeout::Duration(d)) => Some(d),
            Some(Timeout::Infinity) => None,
            None => None,
        },
    }
}

/// Executable form of [`effective_timeout`].
pub fn resolve_timeout(specific: Option<Timeout>, general: Option<Timeout>) -> (r: Option<u64>)
    ensures
        r == effective_timeout(specific, general),
{
    match specific {
        Some(Timeout::Duration(d)) => Some(d),
        Some(Timeout::Infinity) => None,
        None => match general {
            Some(Timeout::Duration(d)) => Some(d),
            Some(Timeout::Infinity) => None,
            None => None,
        },
    }
}

} // verus!

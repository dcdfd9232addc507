//! The startup readiness probe's decision rule.
//!
//! The probe retries opening the store handle on a fixed interval until a
//! deadline, then aborts the process. The loop itself sleeps and connects
//! outside this library; each turn it hands the outcome and the clock to
//! [`watch_db_conn_step`], which decides whether the probe is done, retries
//! after the interval, or gives up.

use vstd::prelude::*;

verus! {

/// What the readiness probe does next.
#[derive(Debug, PartialEq, Eq, Structural, Clone, Copy)]
pub enum WatchdogStep {
    /// The store handle opened: the probe is done.
    Connected,
    /// Not connected and the deadline has not passed: sleep the interval
    /// and try again.
    Retry,
    /// Not connected and the deadline has passed: abort the process.
    Abort,
}

/// Decides one turn of the readiness probe: done when connected, abort
/// past the deadline, retry otherwise. The deadline itself is inclusive.
pub fn watch_db_conn_step(connected: bool, now_ts: i64, deadline_ts: i64) -> (r: WatchdogStep)
    ensures
        connected ==> r == WatchdogStep::Connected,
        !connected && now_ts > deadline_ts ==> r == WatchdogStep::Abort,
        !connected && now_ts <= deadline_ts ==> r == WatchdogStep::Retry,
{
    if connected {
        WatchdogStep::Connected
    } else if now_ts > deadline_ts {
        WatchdogStep::Abort
    } else {
        WatchdogStep::Retry
    }
}

} // verus!

//! The metrics counters, modeled as plain totals owned by the caller; the
//! exporter registry around them lives with the embedding, and its failures
//! never reach the auditor's verdict.

use vstd::prelude::*;

verus! {

/// A counter bumped by one, held at its ceiling instead of wrapping.
pub open spec fn sat_inc(x: u64) -> u64 {
    if x < u64::MAX {
        (x + 1) as u64
    } else {
        x
    }
}

/// The enforcement counters.
pub struct Metrics {
    /// Unauthorized loads observed while blocking.
    pub blocks_total: u64,
    /// Unauthorized loads observed while auditing.
    pub audits_total: u64,
    /// Authorized library loads observed.
    pub authorized_loads_total: u64,
    /// Unauthorized library loads observed.
    pub unauthorized_loads_total: u64,
}

impl Metrics {
    /// Fresh counters, all zero.
    pub fn new() -> (m: Metrics)
        ensures
            m.blocks_total == 0,
            m.audits_total == 0,
            m.authorized_loads_total == 0,
            m.unauthorized_loads_total == 0,
    {
        Metrics {
            blocks_total: 0,
            audits_total: 0,
            authorized_loads_total: 0,
            unauthorized_loads_total: 0,
        }
    }
}

/// Count one unauthorized library load: the audit or block total according
/// to the mode, and the unauthorized total.
pub fn record_unauthorized_library(metrics: &mut Metrics, library_name: &str, audit_mode: bool)
    ensures
        final(metrics).audits_total == if audit_mode {
            sat_inc(old(metrics).audits_total)
        } else {
            old(metrics).audits_total
        },
        final(metrics).blocks_total == if audit_mode {
            old(metrics).blocks_total
        } else {
            sat_inc(old(metrics).blocks_total)
        },
        final(metrics).unauthorized_loads_total == sat_inc(old(metrics).unauthorized_loads_total),
        final(metrics).authorized_loads_total == old(metrics).authorized_loads_total,
{
    if audit_mode {
        if metrics.audits_total < u64::MAX {
            metrics.audits_total = metrics.audits_total + 1;
        }
    } else {
        if metrics.blocks_total < u64::MAX {
            metrics.blocks_total = metrics.blocks_total + 1;
        }
    }
    if metrics.unauthorized_loads_total < u64::MAX {
        metrics.unauthorized_loads_total = metrics.unauthorized_loads_total + 1;
    }
}

/// Count one authorized library load.
pub fn record_authorized_library(metrics: &mut Metrics, library_name: &str)
    ensures
        final(metrics).authorized_loads_total == sat_inc(old(metrics).authorized_loads_total),
        final(metrics).audits_total == old(metrics).audits_total,
        final(metrics).blocks_total == old(metrics).blocks_total,
        final(metrics).unauthorized_loads_total == old(metrics).unauthorized_loads_total,
{
    if metrics.authorized_loads_total < u64::MAX {
        metrics.authorized_loads_total = metrics.authorized_loads_total + 1;
    }
}

} // verus!

//! The load-time process guard: the decision taken once per protected
//! process, right after the auditor has classified the process map.

use vstd::prelude::*;
use crate::config::Settings;
use crate::preload_check::{perform_check, spec_found_unauthorized, wl_of};

verus! {

/// What the guard does with the host process after one audit pass.
#[derive(Clone, Copy, Debug, PartialEq, Eq, Structural)]
pub enum GuardAction {
    /// Let the host process run.
    Continue,
    /// Terminate the host process with a distinct non-zero exit status.
    Terminate,
}

/// The guard's decision table: a process is terminated exactly when an
/// unauthorized library was found and audit mode is off.
pub open spec fn spec_guard_decision(found_unauthorized: bool, audit_mode: bool) -> GuardAction {
    if found_unauthorized && !audit_mode {
        GuardAction::Terminate
    } else {
        GuardAction::Continue
    }
}

/// Decide the guard action from an audit verdict.
pub fn guard_decision(found_unauthorized: bool, audit_mode: bool) -> (action: GuardAction)
    ensures
        action == spec_guard_decision(found_unauthorized, audit_mode),
{
    if found_unauthorized && !audit_mode {
        GuardAction::Terminate
    } else {
        GuardAction::Continue
    }
}

/// The one-shot load-time check: audit the host's own process-map snapshot
/// and decide whether the host process continues. Termination happens
/// exactly when the snapshot holds an unauthorized library and the policy
/// blocks.
pub fn guard_check(settings: &Settings, maps_content: &str) -> (action: GuardAction)
    ensures
        action == spec_guard_decision(
            spec_found_unauthorized(wl_of(*settings), maps_content@),
            settings.audit_mode,
        ),
{
    let verdict = perform_check(settings, maps_content);
    guard_decision(verdict.0, verdict.1)
}

} // verus!

//! Classification of file-system events and inbound datagrams.
//!
//! The watch service hands the shell a stream of `(path, kind)` events; the
//! shell asks [`assess_event`] what each one means, reads the file head only
//! when told to scan, and feeds [`content_alarm`]'s verdict and the other
//! alarm sources into the coordinator. The grid listener runs every datagram
//! payload through [`handle_datagram`].

use vstd::prelude::*;
use crate::coordinator::{
    LockdownPlan, ProtectionState, Signal, plan_of, step_fires, step_state,
};
use crate::entropy::{SUSPICION_THRESHOLD_Q16, constant_buf, score_q16, uniform256};
use crate::grid::{encode_spec, parse_alert};
use crate::honeypot::{contains_sub, contains_substring, is_honeypot, path_is_honeypot};

verus! {

/// The kind of a file-system change event.
#[derive(Clone, Copy, Debug, PartialEq, Eq, Structural)]
pub enum EventKind {
    Create,
    Modify,
    Remove,
    Other,
}

/// What an event means for the agent.
#[derive(Clone, Copy, Debug, PartialEq, Eq, Structural)]
pub enum Assessment {
    /// Nothing to do: an irrelevant kind, or a path inside the reserved
    /// snapshot subtree.
    Ignore,
    /// A decoy file was touched: escalate immediately, skip all analysis.
    HoneypotAlarm,
    /// An ordinary path: read the file head (when it is a regular file)
    /// and run the entropy classifier.
    ScanContent,
}

/// The decision rule for one event: create/modify/remove on a decoy path
/// is an alarm wherever it happens; other relevant paths are scanned
/// unless they lie in the reserved snapshot subtree; everything else is
/// ignored.
pub open spec fn assess_spec(path: Seq<char>, kind: EventKind) -> Assessment {
    if kind == EventKind::Other {
        Assessment::Ignore
    } else if path_is_honeypot(path) {
        Assessment::HoneypotAlarm
    } else if contains_sub(path, ".snapshots"@) {
        Assessment::Ignore
    } else {
        Assessment::ScanContent
    }
}

/// Classifies one file-system event.
pub fn assess_event(path: &str, kind: EventKind) -> (r: Assessment)
    ensures
        r == assess_spec(path@, kind),
{
    match kind {
        EventKind::Other => Assessment::Ignore,
        _ => {
            if is_honeypot(path) {
                Assessment::HoneypotAlarm
            } else if contains_substring(path, ".snapshots") {
                Assessment::Ignore
            } else {
                Assessment::ScanContent
            }
        },
    }
}

/// Scores a file head and applies the suspicion rule: the alarm is raised
/// exactly when the read was non-empty and the score crosses the
/// threshold. An empty read never classifies.
pub fn content_alarm(data: &[u8]) -> (r: (bool, u32))
    requires
        data@.len() <= u64::MAX,
    ensures
        r.0 == (data@.len() > 0 && r.1 > SUSPICION_THRESHOLD_Q16),
        data@.len() == 0 ==> r.1 == 0 && !r.0,
        data@.len() > 0 && constant_buf(data@) ==> r.1 == 0 && !r.0,
        uniform256(data@) ==> r.1 == 8 * 65536 && r.0,
        r.1 < 64 * 65536,
{
    if data.len() == 0 {
        return (false, 0);
    }
    let score = score_q16(data);
    (score > SUSPICION_THRESHOLD_Q16, score)
}

/// Handles one datagram payload from the grid listener: a payload that is
/// the canonical encoding of an alert reports a peer alert to the
/// coordinator - exactly once per datagram - and any other payload is
/// dropped without touching the state.
pub fn handle_datagram(state: &mut ProtectionState, payload: &str) -> (r: Option<LockdownPlan>)
    requires
        old(state).wf(),
    ensures
        final(state).wf(),
        (exists|m: (Seq<char>, Seq<char>, u64)| payload@ == #[trigger] encode_spec(m)) ==> {
            &&& *final(state) == step_state(*old(state), Signal::PeerAlert)
            &&& (step_fires(*old(state), Signal::PeerAlert) ==> r == Some(plan_of(*old(state))))
            &&& (!step_fires(*old(state), Signal::PeerAlert) ==> r == None::<LockdownPlan>)
        },
        !(exists|m: (Seq<char>, Seq<char>, u64)| payload@ == #[trigger] encode_spec(m)) ==> (
        *final(state) == *old(state) && r == None::<LockdownPlan>),
{
    match parse_alert(payload) {
        Some(_) => crate::coordinator::trigger(state, Signal::PeerAlert),
        None => None,
    }
}

} // verus!

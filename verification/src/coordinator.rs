//! The one-shot response state machine.
//!
//! All alert sources (honeypot tripwire, entropy classifier, peer alerts from
//! the grid) funnel into [`trigger`]. The first qualifying signal flips the
//! `triggered` latch and yields a [`LockdownPlan`]; every later signal is
//! ignored. The shell executes the plan's steps in the fixed order given by
//! [`lockdown_steps`]: terminate the offender, broadcast a distress alert,
//! isolate the host, restore the baseline snapshot.

use vstd::prelude::*;

verus! {

/// How many entropy-flagged events must accumulate before the agent escalates.
/// The agent reacts on the very first suspicious file.
pub const MIN_SUSPICIOUS_EVENTS: u64 = 1;

/// Shared protection state; one instance per protected directory root.
pub struct ProtectionState {
    /// Entropy-flagged events seen while the latch was still open.
    pub suspicious_event_count: u64,
    /// Name of the last known-good snapshot, taken at startup.
    pub baseline_snapshot_id: String,
    /// Root directory under watch.
    pub protected_path: String,
    /// One-shot latch: flips false to true exactly once, never back.
    pub triggered: bool,
}

/// An alert source reporting into the coordinator.
#[derive(Clone, Copy, Debug, PartialEq, Eq, Structural)]
pub enum Signal {
    /// A decoy file was created, modified or removed.
    HoneypotHit,
    /// A scanned file's content scored above the entropy threshold.
    EntropyAlert,
    /// A neighbouring agent broadcast a distress alert.
    PeerAlert,
}

/// What the shell must do once the latch flips: restore `snapshot` under
/// `path` after the kill/broadcast/isolate steps.
pub struct LockdownPlan {
    pub snapshot: String,
    pub path: String,
}

/// One step of the lockdown sequence, in the order of [`lockdown_steps`].
#[derive(Clone, Copy, Debug, PartialEq, Eq, Structural)]
pub enum LockdownStep {
    TerminateOffender,
    BroadcastAlert,
    IsolateHost,
    RestoreBaseline,
}

impl ProtectionState {
    /// While the latch is open, the event counter has not yet reached the
    /// escalation minimum; reaching it flips the latch in the same step.
    pub open spec fn wf(self) -> bool {
        !self.triggered ==> self.suspicious_event_count < MIN_SUSPICIOUS_EVENTS
    }
}

/// Whether `sig` arriving in state `s` flips the latch.
pub open spec fn step_fires(s: ProtectionState, sig: Signal) -> bool {
    &&& !s.triggered
    &&& match sig {
        Signal::EntropyAlert => s.suspicious_event_count + 1 >= MIN_SUSPICIOUS_EVENTS,
        _ => true,
    }
}

/// The state after `sig` has been handled in state `s`.
pub open spec fn step_state(s: ProtectionState, sig: Signal) -> ProtectionState {
    if s.triggered {
        s
    } else {
        ProtectionState {
            suspicious_event_count: match sig {
                Signal::EntropyAlert => (s.suspicious_event_count + 1) as u64,
                _ => s.suspicious_event_count,
            },
            baseline_snapshot_id: s.baseline_snapshot_id,
            protected_path: s.protected_path,
            triggered: s.triggered || step_fires(s, sig),
        }
    }
}

/// The plan issued when the latch flips in state `s`.
pub open spec fn plan_of(s: ProtectionState) -> LockdownPlan {
    LockdownPlan { snapshot: s.baseline_snapshot_id, path: s.protected_path }
}

/// Builds the initial protection state for a freshly started agent.
pub fn initial_state(baseline_snapshot_id: String, protected_path: String) -> (s: ProtectionState)
    ensures
        s.wf(),
        !s.triggered,
        s.suspicious_event_count == 0,
        s.baseline_snapshot_id == baseline_snapshot_id,
        s.protected_path == protected_path,
{
    ProtectionState {
        suspicious_event_count: 0,
        baseline_snapshot_id,
        protected_path,
        triggered: false,
    }
}

/// Atomic check-and-set of the one-shot latch.
///
/// The caller must serialize calls on one state (the shell holds a lock);
/// under that discipline the returned plan is issued at most once per agent
/// lifetime, whatever the interleaving of alert sources.
pub fn trigger(state: &mut ProtectionState, signal: Signal) -> (r: Option<LockdownPlan>)
    requires
        old(state).wf(),
    ensures
        final(state).wf(),
        *final(state) == step_state(*old(state), signal),
        step_fires(*old(state), signal) ==> r == Some(plan_of(*old(state))),
        !step_fires(*old(state), signal) ==> r == None::<LockdownPlan>,
        old(state).triggered ==> *final(state) == *old(state) && r == None::<LockdownPlan>,
{
    if state.triggered {
        return None;
    }
    if let Signal::EntropyAlert = signal {
        state.suspicious_event_count = state.suspicious_event_count + 1;
        if state.suspicious_event_count < MIN_SUSPICIOUS_EVENTS {
            return None;
        }
    }
    state.triggered = true;
    Some(LockdownPlan {
        snapshot: state.baseline_snapshot_id.clone(),
        path: state.protected_path.clone(),
    })
}

/// The fixed order of the lockdown sequence: terminate the offending process,
/// broadcast a distress alert to the grid, cut lateral network movement, then
/// restore the baseline snapshot (honeypots are re-deployed right after).
pub fn lockdown_steps() -> (steps: Vec<LockdownStep>)
    ensures
        steps@ =~= seq![
            LockdownStep::TerminateOffender,
            LockdownStep::BroadcastAlert,
            LockdownStep::IsolateHost,
            LockdownStep::RestoreBaseline,
        ],
{
    let mut steps: Vec<LockdownStep> = Vec::new();
    steps.push(LockdownStep::TerminateOffender);
    steps.push(LockdownStep::BroadcastAlert);
    steps.push(LockdownStep::IsolateHost);
    steps.push(LockdownStep::RestoreBaseline);
    steps
}

/// The process-name signature of the offender that the terminate step
/// kills, best effort.
pub fn offender_signature() -> (r: &'static str)
    ensures
        r@ == "d-ransom"@,
{
    "d-ransom"
}

/// The private address range whose outbound traffic the isolate step
/// drops, to contain lateral movement.
pub fn isolation_target_cidr() -> (r: &'static str)
    ensures
        r@ == "172.16.0.0/12"@,
{
    "172.16.0.0/12"
}

/// The arguments of the one packet-filter rule the isolate step inserts:
/// drop all outbound traffic to the private range. Repeated calls of the
/// shell may insert duplicate rules; that is accepted.
pub fn isolation_rule_args() -> (r: Vec<String>)
    ensures
        r@.len() == 6,
        r@[0]@ == "-I"@,
        r@[1]@ == "OUTPUT"@,
        r@[2]@ == "-d"@,
        r@[3]@ == "172.16.0.0/12"@,
        r@[4]@ == "-j"@,
        r@[5]@ == "DROP"@,
{
    let mut args: Vec<String> = Vec::new();
    args.push(String::from_str("-I"));
    args.push(String::from_str("OUTPUT"));
    args.push(String::from_str("-d"));
    args.push(String::from_str("172.16.0.0/12"));
    args.push(String::from_str("-j"));
    args.push(String::from_str("DROP"));
    args
}

/// The state after a whole sequence of signals has been handled one by one.
pub open spec fn run_signals(s: ProtectionState, sigs: Seq<Signal>) -> ProtectionState
    decreases sigs.len(),
{
    if sigs.len() == 0 {
        s
    } else {
        run_signals(step_state(s, sigs[0]), sigs.drop_first())
    }
}

/// How many of the signals in `sigs`, handled in order from state `s`,
/// flip the latch and so issue a lockdown plan.
pub open spec fn fired_count(s: ProtectionState, sigs: Seq<Signal>) -> nat
    decreases sigs.len(),
{
    if sigs.len() == 0 {
        0
    } else {
        (if step_fires(s, sigs[0]) { 1nat } else { 0nat })
            + fired_count(step_state(s, sigs[0]), sigs.drop_first())
    }
}

/// Once the latch is set, no later signal changes the state or issues a plan.
pub proof fn lemma_triggered_absorbs(s: ProtectionState, sigs: Seq<Signal>)
    requires
        s.triggered,
    ensures
        run_signals(s, sigs) == s,
        fired_count(s, sigs) == 0,
    decreases sigs.len(),
{
    if sigs.len() > 0 {
        lemma_triggered_absorbs(s, sigs.drop_first());
    }
}

/// The at-most-once guarantee: from a fresh (untriggered, well-formed) state,
/// any non-empty serialized sequence of signals - honeypot hits, entropy
/// alerts and peer alerts in any interleaving - issues exactly one lockdown
/// plan, and the latch ends set; an empty sequence issues none.
pub proof fn lemma_lockdown_exactly_once(s: ProtectionState, sigs: Seq<Signal>)
    requires
        s.wf(),
        !s.triggered,
    ensures
        sigs.len() > 0 ==> fired_count(s, sigs) == 1 && run_signals(s, sigs).triggered,
        sigs.len() == 0 ==> fired_count(s, sigs) == 0,
{
    if sigs.len() > 0 {
        assert(step_fires(s, sigs[0]));
        lemma_triggered_absorbs(step_state(s, sigs[0]), sigs.drop_first());
    }
}

} // verus!

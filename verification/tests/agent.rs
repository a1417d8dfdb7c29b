use devo_core::coordinator::{
    initial_state, isolation_rule_args, isolation_target_cidr, lockdown_steps, offender_signature,
    LockdownStep, Signal, MIN_SUSPICIOUS_EVENTS,
};
use devo_core::grid::{encode_alert, Alert, GRID_PORT};
use devo_core::monitor::{assess_event, content_alarm, handle_datagram, Assessment, EventKind};

fn fresh_state() -> devo_core::coordinator::ProtectionState {
    initial_state(
        String::from("base_safe_state"),
        String::from("/tmp/devos-lab"),
    )
}

#[test]
fn first_signal_issues_the_plan() {
    let mut st = fresh_state();
    assert!(!st.triggered);
    let plan = devo_core::coordinator::trigger(&mut st, Signal::HoneypotHit);
    assert!(st.triggered);
    let plan = plan.expect("first signal must fire");
    assert_eq!(plan.snapshot, "base_safe_state");
    assert_eq!(plan.path, "/tmp/devos-lab");
}

#[test]
fn later_signals_are_ignored() {
    let mut st = fresh_state();
    let first = devo_core::coordinator::trigger(&mut st, Signal::EntropyAlert);
    assert!(first.is_some());
    assert!(devo_core::coordinator::trigger(&mut st, Signal::HoneypotHit).is_none());
    assert!(devo_core::coordinator::trigger(&mut st, Signal::PeerAlert).is_none());
    assert!(devo_core::coordinator::trigger(&mut st, Signal::EntropyAlert).is_none());
    assert!(st.triggered);
}

#[test]
fn entropy_alert_counts_once_then_latches() {
    let mut st = fresh_state();
    assert_eq!(st.suspicious_event_count, 0);
    assert_eq!(MIN_SUSPICIOUS_EVENTS, 1);
    let plan = devo_core::coordinator::trigger(&mut st, Signal::EntropyAlert);
    assert!(plan.is_some());
    assert_eq!(st.suspicious_event_count, 1);
    devo_core::coordinator::trigger(&mut st, Signal::EntropyAlert);
    assert_eq!(st.suspicious_event_count, 1);
}

#[test]
fn lockdown_sequence_is_fixed() {
    let steps = lockdown_steps();
    assert_eq!(
        steps,
        vec![
            LockdownStep::TerminateOffender,
            LockdownStep::BroadcastAlert,
            LockdownStep::IsolateHost,
            LockdownStep::RestoreBaseline,
        ]
    );
}

#[test]
fn response_constants_match_the_rules() {
    assert_eq!(offender_signature(), "d-ransom");
    assert_eq!(isolation_target_cidr(), "172.16.0.0/12");
    assert_eq!(GRID_PORT, 9000);
    let args = isolation_rule_args();
    let want = ["-I", "OUTPUT", "-d", "172.16.0.0/12", "-j", "DROP"];
    assert_eq!(args.len(), want.len());
    for (a, w) in args.iter().zip(want.iter()) {
        assert_eq!(a, w);
    }
}

#[test]
fn honeypot_event_bypasses_scanning() {
    let a = assess_event("/tmp/devos-lab/00_ADMIN_PASSWORD.txt", EventKind::Modify);
    assert_eq!(a, Assessment::HoneypotAlarm);
    let a = assess_event(
        "/tmp/devos-lab/.snapshots/base_safe_state/AA_CONFIDENTIAL.doc",
        EventKind::Create,
    );
    assert_eq!(a, Assessment::HoneypotAlarm);
}

#[test]
fn snapshot_subtree_is_not_scanned() {
    let a = assess_event("/tmp/devos-lab/.snapshots/base_safe_state/notes.txt", EventKind::Modify);
    assert_eq!(a, Assessment::Ignore);
}

#[test]
fn ordinary_files_are_scanned() {
    assert_eq!(
        assess_event("/tmp/devos-lab/report.txt", EventKind::Modify),
        Assessment::ScanContent
    );
    assert_eq!(
        assess_event("/tmp/devos-lab/report.txt", EventKind::Remove),
        Assessment::ScanContent
    );
    assert_eq!(
        assess_event("/tmp/devos-lab/report.txt", EventKind::Other),
        Assessment::Ignore
    );
}

// Scenario: a modified file whose head scores above the threshold drives the
// coordinator through the whole lockdown decision, and every later source
// finds the latch closed.
#[test]
fn high_entropy_modification_locks_down_once() {
    let mut st = fresh_state();

    // The watcher reports a modification of an ordinary file.
    let assessment = assess_event("/tmp/devos-lab/q3_report.xlsx", EventKind::Modify);
    assert_eq!(assessment, Assessment::ScanContent);

    // Its first 4096 bytes look like ciphertext: every byte value equally
    // often scores 8.0 bits per byte, above the 7.0 threshold.
    let mut head = Vec::new();
    for _ in 0..16 {
        for b in 0..=255u8 {
            head.push(b);
        }
    }
    let (alarm, score) = content_alarm(&head);
    assert!(alarm);
    assert_eq!(score, 8 * 65536);
    assert!(score > devo_core::entropy::SUSPICION_THRESHOLD_Q16);

    // The coordinator fires exactly once, with the startup snapshot id.
    assert_eq!(st.suspicious_event_count, 0);
    let plan = devo_core::coordinator::trigger(&mut st, Signal::EntropyAlert)
        .expect("the first suspicious file escalates");
    assert_eq!(st.suspicious_event_count, 1);
    assert_eq!(plan.snapshot, "base_safe_state");
    assert_eq!(plan.path, "/tmp/devos-lab");
    let steps = lockdown_steps();
    assert_eq!(steps[0], LockdownStep::TerminateOffender);
    assert_eq!(steps[1], LockdownStep::BroadcastAlert);
    assert_eq!(steps[2], LockdownStep::IsolateHost);
    assert_eq!(steps[3], LockdownStep::RestoreBaseline);

    // Any further source is ignored.
    assert!(devo_core::coordinator::trigger(&mut st, Signal::PeerAlert).is_none());
}

// Scenario: two honeypot hits arrive back to back (two event consumers
// racing); the serialized check-and-set lets exactly one through.
#[test]
fn concurrent_honeypot_hits_fire_once() {
    let mut st = fresh_state();
    let a1 = assess_event("/tmp/devos-lab/00_ADMIN_PASSWORD.txt", EventKind::Modify);
    let a2 = assess_event("/tmp/devos-lab/ZZ_BACKUP.db", EventKind::Remove);
    assert_eq!(a1, Assessment::HoneypotAlarm);
    assert_eq!(a2, Assessment::HoneypotAlarm);
    let first = devo_core::coordinator::trigger(&mut st, Signal::HoneypotHit);
    let second = devo_core::coordinator::trigger(&mut st, Signal::HoneypotHit);
    assert!(first.is_some());
    assert!(second.is_none());
    assert!(st.triggered);
}

#[test]
fn datagram_drives_the_latch_once() {
    let mut st = fresh_state();
    let alert = Alert {
        sender_ip: String::from("192.168.1.7"),
        threat_type: String::from("RANSOMWARE"),
        timestamp: 1700000000,
    };
    let wire = encode_alert(&alert);
    let plan = handle_datagram(&mut st, &wire).expect("a well-formed alert fires");
    assert_eq!(plan.snapshot, "base_safe_state");
    assert!(st.triggered);
    // A second copy of the same datagram finds the latch closed.
    assert!(handle_datagram(&mut st, &wire).is_none());
}

#[test]
fn malformed_datagram_never_fires() {
    let mut st = fresh_state();
    for bad in [
        "",
        "ping",
        "{}",
        "{\"sender_ip\":\"x\"}",
        "{\"sender_ip\":\"x\",\"threat_type\":\"RANSOMWARE\",\"timestamp\":1,\"extra\":2}",
        "{\"sender_ip\": \"x\",\"threat_type\":\"R\",\"timestamp\":1}",
        "{\"sender_ip\":\"x\",\"threat_type\":\"R\",\"timestamp\":01}",
    ] {
        assert!(handle_datagram(&mut st, bad).is_none(), "accepted: {bad}");
        assert!(!st.triggered);
        assert_eq!(st.suspicious_event_count, 0);
    }
}

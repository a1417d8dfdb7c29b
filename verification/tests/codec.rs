use devo_core::grid::{encode_alert, parse_alert, Alert};

fn alert(ip: &str, threat: &str, ts: u64) -> Alert {
    Alert {
        sender_ip: String::from(ip),
        threat_type: String::from(threat),
        timestamp: ts,
    }
}

#[test]
fn encoding_matches_the_wire_layout() {
    let wire = encode_alert(&alert("10.0.0.5", "RANSOMWARE", 42));
    assert_eq!(
        wire,
        "{\"sender_ip\":\"10.0.0.5\",\"threat_type\":\"RANSOMWARE\",\"timestamp\":42}"
    );
}

#[test]
fn round_trip_plain() {
    let a = alert("192.168.0.20", "RANSOMWARE", 1699999999);
    let b = parse_alert(&encode_alert(&a)).expect("own encoding parses");
    assert_eq!(b.sender_ip, a.sender_ip);
    assert_eq!(b.threat_type, a.threat_type);
    assert_eq!(b.timestamp, a.timestamp);
}

#[test]
fn round_trip_with_escapes() {
    let a = alert("a\"b\\c", "R\\\"S", 0);
    let wire = encode_alert(&a);
    let b = parse_alert(&wire).expect("escaped fields round trip");
    assert_eq!(b.sender_ip, a.sender_ip);
    assert_eq!(b.threat_type, a.threat_type);
    assert_eq!(b.timestamp, 0);
}

#[test]
fn round_trip_extreme_timestamp() {
    let a = alert("fe80::1", "RANSOMWARE", u64::MAX);
    let b = parse_alert(&encode_alert(&a)).expect("largest timestamp round trips");
    assert_eq!(b.timestamp, u64::MAX);
}

#[test]
fn parses_a_hand_written_datagram() {
    let b = parse_alert("{\"sender_ip\":\"ME\",\"threat_type\":\"RANSOMWARE\",\"timestamp\":0}")
        .expect("canonical datagram parses");
    assert_eq!(b.sender_ip, "ME");
    assert_eq!(b.threat_type, "RANSOMWARE");
    assert_eq!(b.timestamp, 0);
}

#[test]
fn rejects_missing_and_extra_fields() {
    assert!(parse_alert("{\"sender_ip\":\"x\",\"timestamp\":1}").is_none());
    assert!(parse_alert("{\"sender_ip\":\"x\",\"threat_type\":\"R\"}").is_none());
    assert!(parse_alert(
        "{\"sender_ip\":\"x\",\"threat_type\":\"R\",\"timestamp\":1,\"hops\":3}"
    )
    .is_none());
}

#[test]
fn rejects_unknown_field_names() {
    assert!(parse_alert("{\"sender\":\"x\",\"threat_type\":\"R\",\"timestamp\":1}").is_none());
    assert!(parse_alert("{\"sender_ip\":\"x\",\"threat\":\"R\",\"timestamp\":1}").is_none());
}

#[test]
fn rejects_malformed_numbers() {
    assert!(parse_alert("{\"sender_ip\":\"x\",\"threat_type\":\"R\",\"timestamp\":}").is_none());
    assert!(parse_alert("{\"sender_ip\":\"x\",\"threat_type\":\"R\",\"timestamp\":00}").is_none());
    assert!(parse_alert("{\"sender_ip\":\"x\",\"threat_type\":\"R\",\"timestamp\":-1}").is_none());
    assert!(parse_alert("{\"sender_ip\":\"x\",\"threat_type\":\"R\",\"timestamp\":1.5}").is_none());
    // one past u64::MAX
    assert!(parse_alert(
        "{\"sender_ip\":\"x\",\"threat_type\":\"R\",\"timestamp\":18446744073709551616}"
    )
    .is_none());
    // u64::MAX itself is fine
    assert!(parse_alert(
        "{\"sender_ip\":\"x\",\"threat_type\":\"R\",\"timestamp\":18446744073709551615}"
    )
    .is_some());
}

#[test]
fn rejects_trailing_and_leading_noise() {
    assert!(parse_alert("{\"sender_ip\":\"x\",\"threat_type\":\"R\",\"timestamp\":1} ").is_none());
    assert!(parse_alert(" {\"sender_ip\":\"x\",\"threat_type\":\"R\",\"timestamp\":1}").is_none());
    assert!(parse_alert("{\"sender_ip\":\"x\",\"threat_type\":\"R\",\"timestamp\":1}}").is_none());
}

#[test]
fn rejects_unterminated_strings_and_bad_escapes() {
    assert!(parse_alert("{\"sender_ip\":\"x").is_none());
    assert!(parse_alert("{\"sender_ip\":\"x\\q\",\"threat_type\":\"R\",\"timestamp\":1}").is_none());
    assert!(parse_alert("{\"sender_ip\":\"x\\").is_none());
}

use devo_core::entropy::{score_q16, SCORE_ONE_Q16, SUSPICION_THRESHOLD_Q16};
use devo_core::monitor::content_alarm;

#[test]
fn all_zero_buffer_scores_zero() {
    let data = vec![0u8; 4096];
    assert_eq!(score_q16(&data), 0);
    let data = vec![0u8; 1];
    assert_eq!(score_q16(&data), 0);
    let data = vec![0u8; 777];
    assert_eq!(score_q16(&data), 0);
}

#[test]
fn constant_buffer_scores_zero() {
    let data = vec![0xA5u8; 4096];
    assert_eq!(score_q16(&data), 0);
}

#[test]
fn uniform_buffer_scores_eight_bits_per_byte() {
    // each of the 256 byte values appears sixteen times
    let mut data = Vec::new();
    for _ in 0..16 {
        for b in 0..=255u8 {
            data.push(b);
        }
    }
    assert_eq!(data.len(), 4096);
    assert_eq!(score_q16(&data), 8 * SCORE_ONE_Q16);
    // one copy of each value suffices as well
    let one_each: Vec<u8> = (0..=255u8).collect();
    assert_eq!(score_q16(&one_each), 8 * SCORE_ONE_Q16);
}

#[test]
fn empty_read_never_classifies() {
    let data: Vec<u8> = Vec::new();
    assert_eq!(score_q16(&data), 0);
    let (alarm, score) = content_alarm(&data);
    assert!(!alarm);
    assert_eq!(score, 0);
}

#[test]
fn text_like_content_stays_below_threshold() {
    let data: Vec<u8> = b"The quarterly report was prepared by the finance team. "
        .iter()
        .cycle()
        .take(4096)
        .copied()
        .collect();
    let (alarm, score) = content_alarm(&data);
    assert!(score < SUSPICION_THRESHOLD_Q16);
    assert!(!alarm);
}

#[test]
fn near_uniform_content_crosses_threshold() {
    // 256 values equally often but shuffled by a multiplicative step:
    // still exactly uniform counts, so exactly 8.0 bits per byte.
    let mut data = Vec::new();
    let mut x: u8 = 1;
    for _ in 0..4096 {
        data.push(x);
        x = x.wrapping_mul(165).wrapping_add(13);
    }
    let (alarm, score) = content_alarm(&data);
    assert!(score > SUSPICION_THRESHOLD_Q16, "score {score}");
    assert!(alarm);
}

#[test]
fn two_value_buffer_scores_one_bit() {
    // half zeros, half ones: exactly 1.0 bit per byte
    let mut data = vec![0u8; 2048];
    data.extend(vec![1u8; 2048]);
    assert_eq!(score_q16(&data), SCORE_ONE_Q16);
}

#[test]
fn threshold_is_strict() {
    assert!(!devo_core::entropy::is_suspicious_score(SUSPICION_THRESHOLD_Q16));
    assert!(devo_core::entropy::is_suspicious_score(SUSPICION_THRESHOLD_Q16 + 1));
    assert_eq!(SUSPICION_THRESHOLD_Q16, 7 * SCORE_ONE_Q16);
}

use censorless_protocol::nonce::{check_strictly_increasing, NonceValidator};

#[test]
fn nonce_validator_rejects_zero() {
    let mut v = NonceValidator::new();
    assert!(!v.check(0));
}

#[test]
fn nonce_validator_accepts_increasing() {
    let mut v = NonceValidator::new();
    assert!(v.check(1));
    assert!(v.check(2));
    assert!(v.check(3));
    assert!(v.check(100));
}

#[test]
fn nonce_validator_rejects_duplicates() {
    let mut v = NonceValidator::new();
    assert!(v.check(5));
    assert!(!v.check(5)); // duplicate of last_nonce
}

#[test]
fn nonce_validator_accepts_out_of_order_within_window() {
    let mut v = NonceValidator::new();
    assert!(v.check(1));
    assert!(v.check(3)); // skip 2
    assert!(v.check(2)); // accept out-of-order within window
}

#[test]
fn nonce_validator_rejects_out_of_order_duplicate() {
    let mut v = NonceValidator::new();
    assert!(v.check(1));
    assert!(v.check(3));
    assert!(v.check(2));
    assert!(!v.check(2)); // already seen
}

#[test]
fn nonce_validator_window_boundary() {
    let mut v = NonceValidator::new();
    assert!(v.check(1));
    assert!(v.check(65)); // jump by 64
    // The jump clears the window, so nonce 1 (64 behind) is accepted again.
    assert!(v.check(1));
    // But now it's been seen, so reject duplicate
    assert!(!v.check(1));
}

#[test]
fn nonce_validator_window_outside() {
    let mut v = NonceValidator::new();
    assert!(v.check(1));
    assert!(v.check(66)); // jump by 65
    // diff = 65 > 64, nonce 1 is outside the window
    assert!(!v.check(1));
}

#[test]
fn nonce_validator_window_just_inside() {
    let mut v = NonceValidator::new();
    assert!(v.check(1));
    assert!(v.check(64)); // jump by 63
    // the old last nonce 1 was recorded at bit 62: reject as seen
    assert!(!v.check(1));
    // But nonce 2 should be available (within window, not seen)
    assert!(v.check(2));
}

#[test]
fn nonce_validator_rejects_too_old() {
    let mut v = NonceValidator::new();
    assert!(v.check(100));
    // nonce 35: diff = 65, too old (> 64)
    assert!(!v.check(35));
    // nonce 36: diff = 64, still inside the window
    assert!(v.check(36));
}

#[test]
fn nonce_validator_large_gap() {
    let mut v = NonceValidator::new();
    assert!(v.check(1));
    assert!(v.check(1000)); // large jump clears window
    assert!(!v.check(1)); // way too old
    assert!(v.check(999)); // within window
    assert!(!v.check(999)); // duplicate
}

#[test]
fn nonce_validator_sequential_then_gap() {
    let mut v = NonceValidator::new();
    for i in 1..=10 {
        assert!(v.check(i));
    }
    assert!(v.check(20)); // skip 11-19
    // 11-19 should be available
    for i in 11..=19 {
        assert!(v.check(i), "nonce {} should be accepted", i);
    }
    // All should now be rejected
    for i in 11..=20 {
        assert!(!v.check(i), "nonce {} should be rejected", i);
    }
}

#[test]
fn nonce_validator_tracks_last_nonce_and_window() {
    let mut v = NonceValidator::new();
    assert_eq!(v.last_nonce(), 0);
    assert!(v.check(10));
    assert_eq!(v.last_nonce(), 10);
    // the old last nonce 0 is 10 behind: bit 9
    assert_eq!(v.window(), 1 << 9);
    assert!(v.check(13));
    // everything moves 3 further; the old last nonce 10 is 3 behind: bit 2
    assert_eq!(v.window(), (1 << 12) | (1 << 2));
    assert!(v.check(12));
    assert_eq!(v.window(), (1 << 12) | (1 << 2) | 1);
    assert_eq!(v.last_nonce(), 13);
}

#[test]
fn nonce_validator_refused_nonce_changes_nothing() {
    let mut v = NonceValidator::new();
    assert!(v.check(200));
    assert!(v.check(190));
    let (last, window) = (v.last_nonce(), v.window());
    assert!(!v.check(190));
    assert!(!v.check(0));
    assert!(!v.check(200));
    assert!(!v.check(100));
    assert_eq!((v.last_nonce(), v.window()), (last, window));
}

#[test]
fn nonce_validator_no_replay_over_a_run() {
    let mut v = NonceValidator::new();
    let nonces = [5u64, 3, 9, 4, 30, 8, 7, 29, 60, 31];
    for &n in nonces.iter() {
        assert!(v.check(n), "nonce {} should be accepted", n);
    }
    for &n in nonces.iter() {
        assert!(!v.check(n), "nonce {} should be refused", n);
    }
}

#[test]
fn strictly_increasing_nonces() {
    let mut last = 0u64;
    assert!(!check_strictly_increasing(&mut last, 0));
    assert!(check_strictly_increasing(&mut last, 3));
    assert_eq!(last, 3);
    assert!(!check_strictly_increasing(&mut last, 3));
    assert!(!check_strictly_increasing(&mut last, 2));
    assert_eq!(last, 3);
    assert!(check_strictly_increasing(&mut last, 10));
    assert_eq!(last, 10);
}

/// The window behaves as a record of seen nonces: after a jump of exactly
/// 64, the old last nonce is inside the window again and not recorded.
#[test]
fn nonce_validator_history_after_jump_of_64() {
    let mut v = NonceValidator::new();
    assert!(v.check(100));
    assert!(v.check(99));
    assert!(v.check(164));
    assert!(v.check(100));
    assert!(!v.check(100));
    // 99 is 65 behind and outside the window
    assert!(!v.check(99));
    // a jump of 63 records the old last nonce
    assert!(v.check(227));
    assert!(!v.check(164));
    assert!(v.check(165));
}

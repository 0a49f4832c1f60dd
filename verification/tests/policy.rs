//! The periodic session policy and the fractional quantities it reports.
use pallet_session::fraction::Perbill;
use pallet_session::fraction::Percent;
use pallet_session::policy::PeriodicSessions;
use pallet_session::policy::ShouldEndSession;
use pallet_session::session::Session;

#[test]
fn periodic_should_end_session_at_offset_and_period() {
    let p = PeriodicSessions::new(10, 3);
    assert!(p.should_end_session(3));
    assert!(p.should_end_session(13));
    assert!(!p.should_end_session(12));
    assert!(!p.should_end_session(0));
    assert!(!p.should_end_session(2));
    assert!(p.should_end_session(23));
}

#[test]
fn periodic_progress_counts_current_block() {
    let p = PeriodicSessions::new(10, 3);
    // (5 - 3) % 10 + 1 = 3 blocks elapsed of 10: 30%.
    assert_eq!(p.estimate_current_session_progress(5), Some(Percent { parts: 30 }));
    // The first block of a session reports 10%, never 0%.
    assert_eq!(p.estimate_current_session_progress(3), Some(Percent { parts: 10 }));
    // The last block of a session reports exactly 100%.
    assert_eq!(p.estimate_current_session_progress(12), Some(Percent { parts: 100 }));
    // Before the first session ends, progress is measured against the offset.
    assert_eq!(p.estimate_current_session_progress(0), Some(Percent { parts: 33 }));
    assert_eq!(p.estimate_current_session_progress(2), Some(Percent { parts: 100 }));
}

#[test]
fn periodic_next_rotation_estimate() {
    let p = PeriodicSessions::new(10, 3);
    assert_eq!(p.estimate_next_session_rotation(5), Some(13));
    // A rotation due exactly now is assumed done: one full period ahead.
    assert_eq!(p.estimate_next_session_rotation(13), Some(23));
    assert_eq!(p.estimate_next_session_rotation(3), Some(3));
    assert_eq!(p.estimate_next_session_rotation(2), Some(3));
    assert_eq!(p.estimate_next_session_rotation(14), Some(23));
}

#[test]
fn periodic_degenerate_offset_at_least_period() {
    // offset >= period is accepted and must not panic.
    let p = PeriodicSessions::new(2, 5);
    assert!(p.should_end_session(5));
    assert!(p.should_end_session(7));
    assert!(!p.should_end_session(6));
    assert_eq!(p.average_session_length(), 2);
    assert_eq!(p.estimate_next_session_rotation(6), Some(7));
}

#[test]
fn session_estimates_proxy_the_policy() {
    let p = PeriodicSessions::new(10, 3);
    assert_eq!(Session::average_session_length(&p), 10);
    assert_eq!(Session::estimate_next_new_session(&p, 5), Some(13));
    assert_eq!(Session::estimate_next_new_session(&p, 2), Some(3));
}

#[test]
fn percent_from_rational_rounds_down() {
    assert_eq!(Percent::from_rational(3, 10).parts, 30);
    assert_eq!(Percent::from_rational(1, 3).parts, 33);
    assert_eq!(Percent::from_rational(0, 7).parts, 0);
    assert_eq!(Percent::from_rational(7, 7).parts, 100);
}

#[test]
fn perbill_third_of_three_rounds_to_one() {
    let third = Perbill::from_rational(1, 3);
    assert_eq!(third.parts, 333_333_333);
    assert_eq!(third.mul_nearest(3), 1);
    assert_eq!(third.mul_nearest(1), 0);
    assert_eq!(third.mul_nearest(6), 2);
    let half = Perbill::from_rational(1, 2);
    assert_eq!(half.parts, 500_000_000);
    assert_eq!(half.mul_nearest(5), 3);
    assert_eq!(Perbill::from_percent(33).parts, 330_000_000);
}

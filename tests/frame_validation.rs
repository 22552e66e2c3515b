use sframe::error::SframeError;
use sframe::frame_validation::{FrameValidation, ReplayAttackProtection};
use sframe::header::Header;

fn header(counter: u64) -> Header {
    Header { key_id: 0, frame_counter: counter, size: 1 }
}

#[test]
fn replay_window_over_accepted_counters() {
    let tolerance = 4;
    let mut p = ReplayAttackProtection::with_tolerance(tolerance);
    for c in 0..10u64 {
        assert_eq!(p.validate(&header(c)), Ok(()));
    }
    // any repeat is refused
    for c in 0..10u64 {
        assert_eq!(p.validate(&header(c)), Err(SframeError::FrameValidationFailed));
    }
    // a new highest counter is accepted
    assert_eq!(p.validate(&header(20)), Ok(()));
    // more than the tolerance below the highest: refused
    assert_eq!(p.validate(&header(15)), Err(SframeError::FrameValidationFailed));
    // inside the window and never seen: accepted once
    assert_eq!(p.validate(&header(16)), Ok(()));
    assert_eq!(p.validate(&header(16)), Err(SframeError::FrameValidationFailed));
    assert_eq!(p.validate(&header(18)), Ok(()));
}

#[test]
fn window_edge_is_inclusive() {
    let mut p = ReplayAttackProtection::with_tolerance(128);
    assert_eq!(p.validate(&header(1000)), Ok(()));
    assert_eq!(p.validate(&header(872)), Ok(()));
    assert_eq!(p.validate(&header(871)), Err(SframeError::FrameValidationFailed));
}

#[test]
fn zero_tolerance_accepts_only_increasing() {
    let mut p = ReplayAttackProtection::with_tolerance(0);
    assert_eq!(p.validate(&header(0)), Ok(()));
    assert_eq!(p.validate(&header(0)), Err(SframeError::FrameValidationFailed));
    assert_eq!(p.validate(&header(2)), Ok(()));
    assert_eq!(p.validate(&header(1)), Err(SframeError::FrameValidationFailed));
    assert_eq!(p.validate(&header(u64::MAX)), Ok(()));
}

#[test]
fn no_validation_accepts_everything() {
    let mut v = FrameValidation::NoValidation;
    assert_eq!(v.validate(&header(3)), Ok(()));
    assert_eq!(v.validate(&header(3)), Ok(()));
    assert_eq!(v.validate(&header(0)), Ok(()));
}

#[test]
fn check_does_not_record() {
    let mut p = ReplayAttackProtection::with_tolerance(8);
    assert_eq!(p.check(&header(3)), Ok(()));
    assert_eq!(p.check(&header(3)), Ok(()));
    p.record(&header(3));
    assert_eq!(p.check(&header(3)), Err(SframeError::FrameValidationFailed));
    assert_eq!(p.check(&header(2)), Ok(()));
    let mut v = FrameValidation::ReplayAttackProtection(p);
    assert_eq!(v.check(&header(20)), Ok(()));
    v.record(&header(20));
    assert_eq!(v.check(&header(11)), Err(SframeError::FrameValidationFailed));
    assert_eq!(v.check(&header(12)), Ok(()));
}

use syncread::validator::PositionValidator;

#[test]
fn test_unseeded_accepts_in_bounds() {
    let mut v = PositionValidator::new();
    assert!(v.validate_position_change(7, 10));
    assert_eq!(v.last_known_position(), Some(7));

    let mut w = PositionValidator::new();
    assert!(!w.validate_position_change(10, 10));
    assert_eq!(w.last_known_position(), None);
    assert!(!w.validate_position_change(-1, 10));
    assert_eq!(w.last_known_position(), None);
}

#[test]
fn test_small_and_forward_jumps_accepted() {
    let mut v = PositionValidator::new();
    v.seed(5);
    assert!(v.validate_position_change(6, 100));
    v.seed(5);
    assert!(v.validate_position_change(7, 100));
    v.seed(5);
    assert!(v.validate_position_change(8, 100));
    v.seed(5);
    assert!(v.validate_position_change(50, 100));
    assert_eq!(v.last_known_position(), Some(50));
}

#[test]
fn test_moderate_backward_accepted() {
    let mut v = PositionValidator::new();
    v.seed(5);
    assert!(v.validate_position_change(1, 100));
    assert_eq!(v.last_known_position(), Some(1));
}

#[test]
fn test_glitch_signature_rejected() {
    let mut v = PositionValidator::new();
    v.seed(20);
    // Deep in the playlist snapping to the start: never accepted, never pending.
    assert!(!v.validate_position_change(0, 100));
    assert_eq!(v.last_known_position(), Some(20));
    // A repeat is still rejected because it never became pending.
    assert!(!v.validate_position_change(0, 100));
    assert_eq!(v.last_known_position(), Some(20));
}

#[test]
fn test_large_backward_needs_confirmation() {
    let mut v = PositionValidator::new();
    v.seed(20);
    // First occurrence is rejected and recorded pending.
    assert!(!v.validate_position_change(5, 100));
    assert_eq!(v.last_known_position(), Some(20));
    // The same candidate on the next poll is accepted and commits.
    assert!(v.validate_position_change(5, 100));
    assert_eq!(v.last_known_position(), Some(5));
}

#[test]
fn test_large_backward_reset_by_differing_candidate() {
    let mut v = PositionValidator::new();
    v.seed(20);
    assert!(!v.validate_position_change(5, 100));
    // A differing candidate restarts the pending record; both are rejected.
    assert!(!v.validate_position_change(6, 100));
    assert_eq!(v.last_known_position(), Some(20));
    // Confirming the new candidate commits it.
    assert!(v.validate_position_change(6, 100));
    assert_eq!(v.last_known_position(), Some(6));
}

#[test]
fn test_out_of_bounds_clears_pending() {
    let mut v = PositionValidator::new();
    v.seed(20);
    assert!(!v.validate_position_change(5, 100));
    // An out-of-range reading clears the pending record...
    assert!(!v.validate_position_change(200, 100));
    // ...so the candidate has to be confirmed from scratch.
    assert!(!v.validate_position_change(5, 100));
    assert!(v.validate_position_change(5, 100));
    assert_eq!(v.last_known_position(), Some(5));
}

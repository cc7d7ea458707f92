use dune_engine::camera::{ease_param, EASE_SCALE};

#[test]
fn eased_parameter_hits_exact_milestones() {
    assert_eq!(ease_param(0, 100), 0);
    assert_eq!(ease_param(25, 100), 1250);
    assert_eq!(ease_param(50, 100), 5000);
    assert_eq!(ease_param(75, 100), 8750);
    assert_eq!(ease_param(100, 100), EASE_SCALE);
}

#[test]
fn eased_parameter_of_instant_motion_is_complete() {
    assert_eq!(ease_param(0, 0), EASE_SCALE);
}

#[test]
fn eased_parameter_is_monotone_and_bounded() {
    let total = 240;
    let mut prev = 0;
    for elapsed in 0..=total {
        let e = ease_param(elapsed, total);
        assert!(e <= EASE_SCALE);
        assert!(e >= prev);
        prev = e;
    }
    assert_eq!(prev, EASE_SCALE);
}

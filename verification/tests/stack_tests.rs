use dune_engine::camera::{Position, Rotation, Transform};
use dune_engine::stack::{Action, ActionStack};

fn t(x: i64, y: i64, z: i64) -> Transform {
    Transform {
        position: Position { x, y, z },
        rotation: Rotation { x: 0, y: 0, z: 0, w: 1000 },
    }
}

#[test]
fn lifo_pops_in_reverse_push_order() {
    let mut stack = ActionStack::new();
    stack.push(Action::ButtonPress);
    stack.push(Action::PickTraitors);
    stack.push(Action::MakePrediction { player: 2 });
    let drained = stack.drain();
    assert_eq!(drained.len(), 3);
    assert_eq!(drained[0], Action::MakePrediction { player: 2 });
    assert_eq!(drained[1], Action::PickTraitors);
    assert_eq!(drained[2], Action::ButtonPress);
    assert!(stack.is_empty());
}

#[test]
fn pop_on_empty_is_no_action() {
    let mut stack = ActionStack::new();
    assert_eq!(stack.pop(), None);
    assert!(stack.is_empty());
    assert_eq!(stack.len(), 0);
}

#[test]
fn peek_sees_top_without_removing() {
    let mut stack = ActionStack::new();
    stack.push(Action::ButtonPress);
    stack.push(Action::PickTraitors);
    assert_eq!(stack.peek(), Some(&Action::PickTraitors));
    assert_eq!(stack.len(), 2);
}

#[test]
fn set_top_replaces_only_the_top() {
    let mut stack = ActionStack::new();
    stack.push(Action::ButtonPress);
    stack.push(Action::PickTraitors);
    stack.set_top(Action::MakePrediction { player: 0 });
    assert_eq!(stack.pop(), Some(Action::MakePrediction { player: 0 }));
    assert_eq!(stack.pop(), Some(Action::ButtonPress));
}

#[test]
fn generic_action_pops_unconditionally() {
    let mut stack = ActionStack::new();
    let mut camera = t(0, 0, 0);
    stack.push(Action::ButtonPress);
    stack.advance_top(&mut camera, 16);
    assert!(stack.is_empty());
    assert_eq!(camera, t(0, 0, 0));
}

#[test]
fn camera_motion_converges_once_ticks_cover_total_time() {
    let mut stack = ActionStack::new();
    let mut camera = t(0, 0, 0);
    let dest = t(1000, 2500, -2000);
    stack.push(Action::CameraMotion {
        src: None,
        dest,
        remaining_time: 100,
        total_time: 100,
    });
    // First tick captures the source and does not advance time.
    stack.advance_top(&mut camera, 60);
    assert_eq!(stack.len(), 1);
    // Two ticks carry 120 ms >= 100 ms of total time.
    stack.advance_top(&mut camera, 60);
    stack.advance_top(&mut camera, 60);
    // The next tick pops the finished motion and snaps to the destination.
    stack.advance_top(&mut camera, 60);
    assert!(stack.is_empty());
    assert_eq!(camera, dest);
}

#[test]
fn camera_motion_zero_distance_pops_immediately() {
    let mut stack = ActionStack::new();
    let mut camera = t(5, 5, 5);
    stack.push(Action::CameraMotion {
        src: None,
        dest: t(5, 5, 5),
        remaining_time: 100,
        total_time: 100,
    });
    stack.advance_top(&mut camera, 16);
    assert!(stack.is_empty());
    assert_eq!(camera, t(5, 5, 5));
}

#[test]
fn camera_motion_keeps_resumable_progress() {
    let mut stack = ActionStack::new();
    let mut camera = t(0, 0, 0);
    stack.push(Action::CameraMotion {
        src: None,
        dest: t(100, 0, 0),
        remaining_time: 100,
        total_time: 100,
    });
    stack.advance_top(&mut camera, 30);  // capture
    stack.advance_top(&mut camera, 30);  // 70 left
    match stack.pop() {
        Some(Action::CameraMotion { src, remaining_time, total_time, .. }) => {
            assert_eq!(src, Some(t(0, 0, 0)));
            assert_eq!(remaining_time, 70);
            assert_eq!(total_time, 100);
        },
        other => panic!("expected a camera motion, got {:?}", other),
    }
}

#[test]
fn top_motion_progress_reports_eased_parameter() {
    let mut stack = ActionStack::new();
    let mut camera = t(0, 0, 0);
    stack.push(Action::CameraMotion {
        src: None,
        dest: t(100, 0, 0),
        remaining_time: 100,
        total_time: 100,
    });
    assert_eq!(stack.top_motion_progress(), None);  // source not yet captured
    stack.advance_top(&mut camera, 50);  // capture
    assert_eq!(stack.top_motion_progress(), Some(0));
    stack.advance_top(&mut camera, 50);  // 50 of 100 elapsed
    assert_eq!(stack.top_motion_progress(), Some(5000));
}

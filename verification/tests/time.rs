use engine::time::{TimeControl, TimeManager};

#[test]
fn time_test_infinite_time_control() {
    let tm = TimeManager::new(TimeControl::Infinite, true);
    assert!(!tm.should_stop());
    assert!(!tm.must_stop());
    assert!(!tm.depth_limit_reached(100));
    assert!(!tm.node_limit_reached(1_000_000));
}

#[test]
fn test_depth_limit() {
    let tm = TimeManager::new(TimeControl::Depth { depth: 10 }, true);

    assert!(!tm.depth_limit_reached(5));
    assert!(!tm.depth_limit_reached(9));
    assert!(tm.depth_limit_reached(10));
    assert!(tm.depth_limit_reached(11));

    // No time limits for depth control
    assert!(!tm.should_stop());
    assert!(!tm.must_stop());
}

#[test]
fn test_node_limit() {
    let tm = TimeManager::new(TimeControl::Nodes { nodes: 10000 }, true);

    assert!(!tm.node_limit_reached(5000));
    assert!(!tm.node_limit_reached(9999));
    assert!(tm.node_limit_reached(10000));
    assert!(tm.node_limit_reached(15000));

    // No time limits for node control
    assert!(!tm.should_stop());
    assert!(!tm.must_stop());
}

#[test]
fn test_time_control_equality() {
    assert_eq!(TimeControl::Infinite, TimeControl::Infinite);
    assert_eq!(
        TimeControl::MoveTime { millis: 1000 },
        TimeControl::MoveTime { millis: 1000 }
    );
    assert_ne!(
        TimeControl::MoveTime { millis: 1000 },
        TimeControl::MoveTime { millis: 2000 }
    );
}

#[test]
fn test_default_time_control() {
    let tc: TimeControl = Default::default();
    assert_eq!(tc, TimeControl::Infinite);
}

use chainsmith::anvil::{AnvilNode, NodeStatus, SpawnError};

#[test]
fn new_node_is_stopped() {
    let node = AnvilNode::new(8546);
    assert!(!node.is_running());
    assert_eq!(node.status(), NodeStatus::Stopped);
    assert_eq!(node.port(), 8546);
    assert_eq!(node.fork_info(), (None, None));
}

#[test]
fn primary_start_arguments() {
    let mut node = AnvilNode::new(8545);
    let launch = node.start();
    assert!(!launch.stop_previous);
    assert_eq!(launch.args, vec!["--port".to_string(), "8545".to_string()]);
    assert_eq!(node.status(), NodeStatus::Starting);
    assert_eq!(node.launched(true), Ok(()));
    assert!(node.is_running());
    assert_eq!(node.fork_info(), (None, None));
}

#[test]
fn fork_restart_stops_previous_first() {
    let mut node = AnvilNode::new(8546);
    let first = node.start_fork("http://u1".to_string(), Some(100));
    assert!(!first.stop_previous);
    assert_eq!(
        first.args,
        vec![
            "--port".to_string(),
            "8546".to_string(),
            "--fork-url".to_string(),
            "http://u1".to_string(),
            "--fork-block-number".to_string(),
            "100".to_string(),
        ]
    );
    assert_eq!(node.launched(true), Ok(()));
    assert_eq!(node.fork_info(), (Some("http://u1".to_string()), Some(100)));
    let second = node.start_fork("http://u2".to_string(), None);
    assert!(second.stop_previous);
    assert_eq!(
        second.args,
        vec!["--port".to_string(), "8546".to_string(), "--fork-url".to_string(), "http://u2".to_string()]
    );
    assert_eq!(node.launched(true), Ok(()));
    assert!(node.is_running());
    assert_eq!(node.fork_info(), (Some("http://u2".to_string()), None));
}

#[test]
fn stop_twice_is_harmless() {
    let mut node = AnvilNode::new(8546);
    node.start_fork("http://u1".to_string(), Some(7));
    node.launched(true).unwrap();
    assert!(node.stop());
    assert_eq!(node.status(), NodeStatus::Stopped);
    assert!(!node.stop());
    assert_eq!(node.status(), NodeStatus::Stopped);
    assert_eq!(node.fork_info(), (Some("http://u1".to_string()), Some(7)));
    let mut fresh = AnvilNode::new(1);
    assert!(!fresh.stop());
    assert!(!fresh.stop());
    assert_eq!(fresh.status(), NodeStatus::Stopped);
}

#[test]
fn failed_spawn_leaves_node_stopped() {
    let mut node = AnvilNode::new(8546);
    node.start_fork("http://u1".to_string(), None);
    assert_eq!(node.launched(false), Err(SpawnError::Failed));
    assert_eq!(node.status(), NodeStatus::Stopped);
    assert!(!node.is_running());
    assert_eq!(node.fork_info(), (None, None));
    let launch = node.start();
    assert!(!launch.stop_previous);
}

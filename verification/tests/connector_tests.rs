use storm::connector::{Connector, ConnectorAction, ConnectorWorker};

fn key(b: u8) -> [u8; 32] {
    [b; 32]
}

#[test]
fn idle_without_requests() {
    let c = Connector::new();
    assert!(!c.has_pending_connections());
    assert_eq!(c.next_action(), ConnectorAction::Idle);
}

#[test]
fn requested_peers_are_sent_in_order() {
    let mut c = Connector::new();
    c.connect_peer(key(1));
    c.connect_peer(key(2));
    assert!(c.has_pending_connections());
    assert_eq!(c.next_action(), ConnectorAction::SendKey(key(1)));
    c.key_sent();
    assert_eq!(c.next_action(), ConnectorAction::SendKey(key(2)));
    c.key_sent();
    assert_eq!(c.next_action(), ConnectorAction::AwaitResult);
}

#[test]
fn results_end_the_wait() {
    let mut c = Connector::new();
    c.connect_peer(key(1));
    c.connect_peer(key(2));
    c.key_sent();
    c.key_sent();
    c.result_received(&key(2));
    assert!(c.has_pending_connections());
    assert_eq!(c.next_action(), ConnectorAction::AwaitResult);
    c.result_received(&key(1));
    assert!(!c.has_pending_connections());
    assert_eq!(c.next_action(), ConnectorAction::Idle);
}

#[test]
fn result_before_send_keeps_queue() {
    let mut c = Connector::new();
    c.connect_peer(key(1));
    c.result_received(&key(1));
    assert_eq!(c.next_action(), ConnectorAction::Idle);
    c.connect_peer(key(3));
    assert_eq!(c.next_action(), ConnectorAction::SendKey(key(1)));
}

#[test]
fn unknown_result_changes_nothing() {
    let mut c = Connector::new();
    c.connect_peer(key(1));
    c.result_received(&key(9));
    assert!(c.has_pending_connections());
}

#[test]
fn worker_hands_back_one_at_a_time() {
    let mut w: ConnectorWorker<u32> = ConnectorWorker::new();
    assert_eq!(w.attempt_finished(10), Some(10));
    assert_eq!(w.attempt_finished(11), None);
    assert_eq!(w.attempt_finished(12), None);
    assert_eq!(w.send_finished(), Some(12));
    assert_eq!(w.send_finished(), Some(11));
    assert_eq!(w.send_finished(), None);
    assert_eq!(w.attempt_finished(13), Some(13));
}

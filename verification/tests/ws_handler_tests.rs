use chord_dht::ws_handler::heartbeat_verdict;
use chord_dht::ws_handler::BroadcastMessage;
use chord_dht::ws_handler::Incoming;
use chord_dht::ws_handler::MyWebSocket;
use chord_dht::ws_handler::Reaction;
use chord_dht::ws_handler::CLIENT_TIMEOUT_NANOS;
use chord_dht::ws_handler::HEARTBEAT_INTERVAL_NANOS;
use std::time::Duration;
use std::time::Instant;

#[test]
fn heartbeat_pings_a_client_within_the_timeout() {
    assert_eq!(heartbeat_verdict(0), Reaction::Ping);
    assert_eq!(heartbeat_verdict(HEARTBEAT_INTERVAL_NANOS), Reaction::Ping);
    assert_eq!(heartbeat_verdict(10_000_000_000), Reaction::Ping);
}

#[test]
fn heartbeat_drops_a_client_after_the_timeout() {
    assert_eq!(heartbeat_verdict(10_000_000_001), Reaction::Stop);
    assert_eq!(heartbeat_verdict(CLIENT_TIMEOUT_NANOS + 1), Reaction::Stop);
    assert_eq!(heartbeat_verdict(u128::MAX), Reaction::Stop);
}

#[test]
fn timeouts_are_five_and_ten_seconds() {
    assert_eq!(HEARTBEAT_INTERVAL_NANOS, 5_000_000_000);
    assert_eq!(CLIENT_TIMEOUT_NANOS, 10_000_000_000);
}

#[test]
fn a_fresh_session_is_pinged() {
    let session = MyWebSocket::new();
    assert_eq!(session.hb(), Reaction::Ping);
}

#[test]
fn a_ping_is_answered_with_its_payload() {
    let mut session = MyWebSocket::new();
    assert_eq!(session.handle(Incoming::Ping(vec![1, 2, 3])), Reaction::Pong(vec![1, 2, 3]));
    assert_eq!(session.handle(Incoming::Ping(vec![])), Reaction::Pong(vec![]));
}

#[test]
fn a_pong_is_not_answered() {
    let mut session = MyWebSocket::new();
    assert_eq!(session.handle(Incoming::Pong(vec![9])), Reaction::Nothing);
}

#[test]
fn text_and_binary_frames_are_echoed() {
    let mut session = MyWebSocket::new();
    assert_eq!(session.handle(Incoming::Text("hi".to_string())), Reaction::Text("hi".to_string()));
    assert_eq!(session.handle(Incoming::Binary(vec![0, 255])), Reaction::Binary(vec![0, 255]));
}

#[test]
fn any_other_frame_ends_the_session() {
    let mut session = MyWebSocket::new();
    assert_eq!(session.handle(Incoming::Other), Reaction::Stop);
}

#[test]
fn a_session_stays_alive_after_frames() {
    let mut session = MyWebSocket::new();
    session.handle(Incoming::Ping(vec![1]));
    session.handle(Incoming::Text("x".to_string()));
    assert_eq!(session.hb(), Reaction::Ping);
}

#[test]
fn a_broadcast_is_sent_as_text() {
    let session = MyWebSocket::new();
    assert_eq!(
        session.broadcast(BroadcastMessage("node 2 joined".to_string())),
        Reaction::Text("node 2 joined".to_string())
    );
}

#[test]
fn a_client_seen_just_now_is_pinged() {
    let session = MyWebSocket::seen_at(Instant::now());
    assert_eq!(session.hb(), Reaction::Ping);
}

#[test]
fn a_client_seen_in_the_future_is_pinged() {
    let session = MyWebSocket::seen_at(Instant::now() + Duration::from_secs(3600));
    assert_eq!(session.hb(), Reaction::Ping);
}

#[test]
fn a_client_silent_for_longer_than_the_timeout_is_dropped() {
    if let Some(long_ago) = Instant::now().checked_sub(Duration::from_secs(11)) {
        let mut session = MyWebSocket::seen_at(long_ago);
        assert_eq!(session.hb(), Reaction::Stop);
        assert_eq!(session.handle(Incoming::Text("late".to_string())), Reaction::Text("late".to_string()));
        assert_eq!(session.hb(), Reaction::Stop);
        assert_eq!(session.handle(Incoming::Pong(vec![])), Reaction::Nothing);
        assert_eq!(session.hb(), Reaction::Ping);
    }
}

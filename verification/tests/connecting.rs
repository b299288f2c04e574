//! Attempts to connect.
use libp2p_dandelion::connect::{Attempt, ConnectAction, ConnectError, ConnectEvent, CONNECT_TIMEOUT};
use libp2p_dandelion::PeerId;

fn peer(key: u8) -> PeerId {
    PeerId::from_bytes(&[0, 1, key]).unwrap()
}

fn wanted(attempt: &Attempt) -> String {
    match attempt.action() {
        ConnectAction::AskConnected => "connected?".to_string(),
        ConnectAction::Dial => "dial".to_string(),
        ConnectAction::AskElapsed => "elapsed?".to_string(),
        ConnectAction::NextEvent => "next".to_string(),
        ConnectAction::Subscribe(topic) => format!("subscribe {topic}"),
        ConnectAction::Finish(Ok(())) => "done".to_string(),
        ConnectAction::Finish(Err(error)) => error.message(),
    }
}

fn dialed() -> Attempt {
    Attempt::new(peer(1)).step(ConnectEvent::IsConnected(false)).step(ConnectEvent::Dialed)
}

fn listening() -> Attempt {
    dialed().step(ConnectEvent::IsConnected(false)).step(ConnectEvent::Elapsed(0))
}

#[test]
fn a_connected_peer_is_not_dialled() {
    let attempt = Attempt::new(peer(1));
    assert_eq!(wanted(&attempt), "connected?");
    assert_eq!(wanted(&attempt.step(ConnectEvent::IsConnected(true))), "done");
}

#[test]
fn other_peers_are_dialled() {
    let attempt = Attempt::new(peer(1)).step(ConnectEvent::IsConnected(false));
    assert_eq!(wanted(&attempt), "dial");
    assert_eq!(wanted(&attempt.step(ConnectEvent::Dialed)), "connected?");
}

#[test]
fn a_refused_dial_ends_the_attempt() {
    let attempt = Attempt::new(peer(1)).step(ConnectEvent::IsConnected(false));
    let attempt = attempt.step(ConnectEvent::DialFailed("no route".to_string()));
    assert_eq!(wanted(&attempt), "no route");
}

#[test]
fn the_topic_is_subscribed_to_once_connected() {
    let topic = format!("subscribe {}", peer(1).stem_topic());
    let attempt = dialed().step(ConnectEvent::IsConnected(true));
    assert_eq!(wanted(&attempt), topic);
    assert_eq!(wanted(&attempt.step(ConnectEvent::Subscribed)), "done");
    assert_eq!(wanted(&listening().step(ConnectEvent::Established(peer(1)))), topic);
}

#[test]
fn the_attempt_waits_for_its_own_peer() {
    assert_eq!(wanted(&listening()), "next");
    let other = listening().step(ConnectEvent::Established(peer(2)));
    assert_eq!(wanted(&other), "connected?");
    let failed = ConnectEvent::ConnectionError(Some(peer(2)), "gone".to_string());
    assert_eq!(wanted(&listening().step(failed)), "connected?");
    let unknown = ConnectEvent::ConnectionError(None, "gone".to_string());
    assert_eq!(wanted(&listening().step(unknown)), "connected?");
    assert_eq!(wanted(&listening().step(ConnectEvent::OtherEvent)), "connected?");
}

#[test]
fn a_failed_connection_ends_the_attempt() {
    let failed = ConnectEvent::ConnectionError(Some(peer(1)), "gone".to_string());
    assert_eq!(wanted(&listening().step(failed)), "Connection failed: gone");
}

#[test]
fn the_attempt_is_given_up_after_half_a_minute() {
    let timing = || dialed().step(ConnectEvent::IsConnected(false));
    assert_eq!(wanted(&timing()), "elapsed?");
    assert_eq!(wanted(&timing().step(ConnectEvent::Elapsed(CONNECT_TIMEOUT))), "next");
    let late = timing().step(ConnectEvent::Elapsed(CONNECT_TIMEOUT + 1));
    assert_eq!(wanted(&late), "Connection timeout");
    assert_eq!(CONNECT_TIMEOUT, std::time::Duration::from_secs(30).as_nanos());
}

#[test]
fn an_attempt_that_is_over_stays_so() {
    let done = Attempt::new(peer(1)).step(ConnectEvent::IsConnected(true));
    assert_eq!(wanted(&done.step(ConnectEvent::IsConnected(false))), "done");
    let late = dialed().step(ConnectEvent::IsConnected(false));
    let late = late.step(ConnectEvent::Elapsed(CONNECT_TIMEOUT + 1));
    assert_eq!(wanted(&late.step(ConnectEvent::IsConnected(true))), "Connection timeout");
}

#[test]
fn what_was_not_asked_for_changes_nothing() {
    let attempt = Attempt::new(peer(1)).step(ConnectEvent::Dialed).step(ConnectEvent::Subscribed);
    assert_eq!(wanted(&attempt), "connected?");
    assert_eq!(wanted(&attempt.step(ConnectEvent::IsConnected(false))), "dial");
}

#[test]
fn failures_are_put_into_words() {
    assert_eq!(ConnectError::DialFailed("x".to_string()).message(), "x");
    assert_eq!(ConnectError::TimedOut.clone().message(), "Connection timeout");
    assert_eq!(ConnectError::ConnectionFailed("y".to_string()).message(), "Connection failed: y");
}

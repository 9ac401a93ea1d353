use lockstep::session::{LifecycleState, SessionConfig, SessionError, SessionManager};
use lockstep::sim::{default_sim_config, two_player_spawns};

fn two_player_config() -> SessionConfig {
    SessionConfig {
        required_players: 2,
        input_delay: 2,
        window: 16,
        sim: default_sim_config(),
        initial: two_player_spawns(),
    }
}

#[test]
fn session_starts_exactly_when_quorum_is_reached() {
    let mut m = SessionManager::new(two_player_config(), 11);
    assert_eq!(m.state(), LifecycleState::AwaitingPeers);

    // No peers yet: nothing happens.
    assert!(matches!(m.try_advance_lifecycle(true), Ok(None)));
    assert_eq!(m.state(), LifecycleState::AwaitingPeers);

    // One of two peers: still waiting, never earlier than the full quorum.
    m.peer_joined(11);
    assert!(matches!(m.try_advance_lifecycle(true), Ok(None)));
    assert_eq!(m.state(), LifecycleState::AwaitingPeers);

    // Quorum exact: negotiating, then running, exactly once.
    m.peer_joined(22);
    assert!(matches!(m.try_advance_lifecycle(true), Ok(None)));
    assert_eq!(m.state(), LifecycleState::Negotiating);

    let sched = match m.try_advance_lifecycle(true) {
        Ok(Some(s)) => s,
        _ => panic!("negotiation should hand out the scheduler"),
    };
    assert_eq!(m.state(), LifecycleState::Running);
    assert_eq!(sched.num_players(), 2);
    // Handles follow discovery order; the local peer joined first.
    assert_eq!(sched.local_handle(), 0);
    assert_eq!(sched.current_tick(), 0);

    // Running is steady state; the session is created exactly once.
    assert!(matches!(m.try_advance_lifecycle(true), Ok(None)));
    assert_eq!(m.state(), LifecycleState::Running);
}

#[test]
fn discovery_order_assigns_handles() {
    let mut m = SessionManager::new(two_player_config(), 22);
    m.peer_joined(11);
    m.peer_joined(22);
    assert!(matches!(m.try_advance_lifecycle(true), Ok(None)));
    match m.try_advance_lifecycle(true) {
        Ok(Some(s)) => assert_eq!(s.local_handle(), 1),
        _ => panic!("negotiation should hand out the scheduler"),
    }
}

#[test]
fn extra_peers_are_fatal() {
    let mut m = SessionManager::new(two_player_config(), 11);
    m.peer_joined(11);
    m.peer_joined(22);
    m.peer_joined(33);
    assert!(matches!(
        m.try_advance_lifecycle(true),
        Err(SessionError::TooManyPeers)
    ));
    assert_eq!(m.state(), LifecycleState::Terminated);
    // Terminated is final.
    assert!(matches!(m.try_advance_lifecycle(true), Ok(None)));
    assert_eq!(m.state(), LifecycleState::Terminated);
}

#[test]
fn duplicate_peer_identities_are_fatal() {
    let mut m = SessionManager::new(two_player_config(), 11);
    m.peer_joined(11);
    m.peer_joined(11);
    assert!(matches!(m.try_advance_lifecycle(true), Ok(None)));
    assert_eq!(m.state(), LifecycleState::Negotiating);
    assert!(matches!(
        m.try_advance_lifecycle(true),
        Err(SessionError::DuplicatePeer)
    ));
    assert_eq!(m.state(), LifecycleState::Terminated);
}

#[test]
fn unavailable_transport_at_start_is_fatal() {
    let mut m = SessionManager::new(two_player_config(), 11);
    m.peer_joined(11);
    m.peer_joined(22);
    assert!(matches!(m.try_advance_lifecycle(true), Ok(None)));
    assert!(matches!(
        m.try_advance_lifecycle(false),
        Err(SessionError::TransportUnavailable)
    ));
    assert_eq!(m.state(), LifecycleState::Terminated);
}

#[test]
fn missing_local_peer_is_fatal() {
    let mut m = SessionManager::new(two_player_config(), 99);
    m.peer_joined(11);
    m.peer_joined(22);
    assert!(matches!(m.try_advance_lifecycle(true), Ok(None)));
    assert!(matches!(
        m.try_advance_lifecycle(true),
        Err(SessionError::LocalPeerMissing)
    ));
    assert_eq!(m.state(), LifecycleState::Terminated);
}

#[test]
fn a_leaving_peer_reopens_the_slot() {
    let mut m = SessionManager::new(two_player_config(), 22);
    m.peer_joined(11);
    m.peer_joined(22);
    m.peer_left(11);
    assert_eq!(m.peer_count(), 1);
    assert!(matches!(m.try_advance_lifecycle(true), Ok(None)));
    assert_eq!(m.state(), LifecycleState::AwaitingPeers);
    m.peer_joined(33);
    assert!(matches!(m.try_advance_lifecycle(true), Ok(None)));
    match m.try_advance_lifecycle(true) {
        Ok(Some(s)) => assert_eq!(s.local_handle(), 0),
        _ => panic!("negotiation should hand out the scheduler"),
    }
}

#[test]
fn leaving_removes_only_the_first_occurrence() {
    let mut m = SessionManager::new(two_player_config(), 22);
    m.peer_joined(11);
    m.peer_joined(22);
    m.peer_joined(11);
    m.peer_left(11);
    assert_eq!(m.peer_count(), 2);
    // The roster is now [22, 11]: it negotiates cleanly with the local
    // peer at handle 0.
    assert!(matches!(m.try_advance_lifecycle(true), Ok(None)));
    match m.try_advance_lifecycle(true) {
        Ok(Some(s)) => assert_eq!(s.local_handle(), 0),
        _ => panic!("negotiation should hand out the scheduler"),
    }
}

#[test]
fn leaving_an_unknown_peer_changes_nothing() {
    let mut m = SessionManager::new(two_player_config(), 11);
    m.peer_joined(11);
    m.peer_left(99);
    assert_eq!(m.peer_count(), 1);
}

#[test]
fn submission_tick_applies_the_configured_delay() {
    let m = SessionManager::new(two_player_config(), 11);
    assert_eq!(m.submission_tick(0), Some(2));
    assert_eq!(m.submission_tick(5), Some(7));
    // Near the top of the tick range the shift is refused, not wrapped.
    assert_eq!(m.submission_tick(usize::MAX - 1), None);
    assert_eq!(m.submission_tick(usize::MAX - 2), None);
}

#[test]
fn transport_loss_terminates_from_any_state() {
    let mut m = SessionManager::new(two_player_config(), 11);
    m.peer_joined(11);
    m.transport_lost();
    assert_eq!(m.state(), LifecycleState::Terminated);
    // Events after termination are ignored.
    m.peer_joined(22);
    assert_eq!(m.peer_count(), 1);
    assert!(matches!(m.try_advance_lifecycle(true), Ok(None)));
    assert_eq!(m.state(), LifecycleState::Terminated);
}

#[test]
fn input_delay_is_exposed_for_submission() {
    let m = SessionManager::new(two_player_config(), 11);
    assert_eq!(m.input_delay(), 2);
}

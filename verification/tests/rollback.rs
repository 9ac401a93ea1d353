use lockstep::codec::{INPUT_LEFT, INPUT_RIGHT};
use lockstep::rollback::{InputError, InputOutcome, Scheduler};
use lockstep::sim::{PlayerPos, SimConfig};

fn pos(x: i64, y: i64) -> PlayerPos {
    PlayerPos { x, y }
}

fn two_player_scheduler(window: usize) -> Scheduler {
    let cfg = SimConfig { limit: 2000, move_per_tick: 10 };
    let initial = vec![pos(0, 0), pos(100, 0)];
    Scheduler::new(cfg, initial, 0, window)
}

#[test]
fn fresh_session_sits_at_tick_zero() {
    let s = two_player_scheduler(16);
    assert_eq!(s.current_tick(), 0);
    assert_eq!(s.num_players(), 2);
    assert_eq!(s.local_handle(), 0);
    assert!(!s.rollback_pending());
    assert_eq!(s.positions(), vec![pos(0, 0), pos(100, 0)]);
}

#[test]
fn advancing_without_input_moves_nobody() {
    let mut s = two_player_scheduler(16);
    s.advance();
    s.advance();
    assert_eq!(s.current_tick(), 2);
    assert_eq!(s.positions(), vec![pos(0, 0), pos(100, 0)]);
}

#[test]
fn prediction_repeats_the_last_confirmed_symbol() {
    let mut s = two_player_scheduler(16);
    // One confirmation at tick 0; ticks 1 and 2 predict the same symbol.
    let r = s.receive_confirmed(1, 0, INPUT_LEFT);
    assert!(matches!(r, Ok(InputOutcome::Recorded)));
    s.advance();
    s.advance();
    s.advance();
    assert_eq!(s.positions(), vec![pos(0, 0), pos(70, 0)]);
}

#[test]
fn late_confirmation_rolls_back_and_replays() {
    // Local handle 0 submits "move right" for tick 5 and nothing else.
    // Seven ticks get simulated; then the remote's symbol for tick 5
    // arrives and contradicts the neutral prediction that was used, so the
    // next advance restores tick 5 and replays through the frontier.
    let mut s = two_player_scheduler(16);
    let r = s.submit_local_input(5, INPUT_RIGHT);
    assert!(matches!(r, Ok(InputOutcome::Recorded)));
    for _ in 0..8 {
        s.advance();
    }
    assert_eq!(s.current_tick(), 8);
    assert!(!s.rollback_pending());
    // Handle 0 moved right on ticks 5, 6 and 7 (prediction repeats the
    // confirmed symbol); handle 1 never moved.
    assert_eq!(s.positions(), vec![pos(30, 0), pos(100, 0)]);

    let r = s.receive_confirmed(1, 5, INPUT_LEFT);
    assert!(matches!(r, Ok(InputOutcome::RollbackScheduled)));
    assert!(s.rollback_pending());
    // The stale, not yet reconciled state is still visible.
    assert_eq!(s.positions(), vec![pos(30, 0), pos(100, 0)]);

    s.advance();
    assert!(!s.rollback_pending());
    assert_eq!(s.current_tick(), 8);
    // Handle 1 now moved left on ticks 5, 6 and 7; handle 0 is untouched.
    assert_eq!(s.positions(), vec![pos(30, 0), pos(70, 0)]);
    assert_eq!(s.local_position(), pos(30, 0));
}

#[test]
fn rollback_replay_equals_direct_simulation() {
    // The same confirmations, delivered in time on one session and late on
    // the other, end in identical states once the rollback has replayed.
    let mut timely = two_player_scheduler(16);
    let mut late = two_player_scheduler(16);

    assert!(timely.submit_local_input(2, INPUT_RIGHT).is_ok());
    assert!(timely.receive_confirmed(1, 1, INPUT_LEFT).is_ok());
    for _ in 0..6 {
        timely.advance();
    }

    assert!(late.submit_local_input(2, INPUT_RIGHT).is_ok());
    for _ in 0..6 {
        late.advance();
    }
    assert!(matches!(
        late.receive_confirmed(1, 1, INPUT_LEFT),
        Ok(InputOutcome::RollbackScheduled)
    ));
    late.advance();

    assert_eq!(timely.current_tick(), late.current_tick());
    assert_eq!(timely.positions(), late.positions());
}

#[test]
fn matching_late_confirmation_needs_no_rollback() {
    let mut s = two_player_scheduler(16);
    assert!(s.receive_confirmed(1, 0, INPUT_LEFT).is_ok());
    for _ in 0..4 {
        s.advance();
    }
    // Tick 2 was simulated with the predicted symbol, which the late
    // confirmation now matches: nothing to replay.
    let r = s.receive_confirmed(1, 2, INPUT_LEFT);
    assert!(matches!(r, Ok(InputOutcome::Recorded)));
    assert!(!s.rollback_pending());
}

#[test]
fn confirmations_older_than_the_window_are_dropped() {
    let mut s = two_player_scheduler(2);
    for _ in 0..8 {
        s.advance();
    }
    let r = s.receive_confirmed(1, 1, INPUT_LEFT);
    assert!(matches!(r, Ok(InputOutcome::StaleDropped)));
    assert!(!s.rollback_pending());
    // The desync is accepted: the state is knowingly not corrected.
    s.advance();
    assert_eq!(s.positions(), vec![pos(0, 0), pos(100, 0)]);
}

#[test]
fn a_confirmation_is_immutable() {
    let mut s = two_player_scheduler(16);
    assert!(matches!(
        s.receive_confirmed(1, 3, INPUT_LEFT),
        Ok(InputOutcome::Recorded)
    ));
    // The same symbol again is a harmless duplicate.
    assert!(matches!(
        s.receive_confirmed(1, 3, INPUT_LEFT),
        Ok(InputOutcome::Recorded)
    ));
    // A different symbol for the same slot is rejected.
    assert!(matches!(
        s.receive_confirmed(1, 3, INPUT_RIGHT),
        Err(InputError::Conflicting)
    ));
    // And the original value still stands.
    s.advance();
    s.advance();
    s.advance();
    s.advance();
    assert_eq!(s.positions(), vec![pos(0, 0), pos(90, 0)]);
}

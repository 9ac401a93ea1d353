use lockstep::codec::{INPUT_DOWN, INPUT_LEFT, INPUT_RIGHT, INPUT_UP};
use lockstep::sim::{
    PlayerPos, SimConfig, clamp_i64, default_sim_config, step, two_player_spawns,
};

fn pos(x: i64, y: i64) -> PlayerPos {
    PlayerPos { x, y }
}

#[test]
fn clamp_hits_bounds_exactly() {
    assert_eq!(clamp_i64(2099, -2000, 2000), 2000);
    assert_eq!(clamp_i64(-2099, -2000, 2000), -2000);
    assert_eq!(clamp_i64(1999, -2000, 2000), 1999);
    assert_eq!(clamp_i64(2000, -2000, 2000), 2000);
}

#[test]
fn rightward_move_near_edge_stops_exactly_at_limit() {
    // One subunit shy of the boundary, moving one whole unit in one tick:
    // the avatar ends exactly on the boundary, never past it.
    let cfg = SimConfig { limit: 2000, move_per_tick: 100 };
    let state = vec![pos(1999, 0)];
    let frame = vec![INPUT_RIGHT];
    let next = step(&cfg, &state, &frame);
    assert_eq!(next[0], pos(2000, 0));
}

#[test]
fn moves_never_overshoot_any_edge() {
    let cfg = SimConfig { limit: 50, move_per_tick: 30 };
    let state = vec![pos(40, -40)];
    let next = step(&cfg, &state, &vec![INPUT_RIGHT]);
    assert_eq!(next[0], pos(50, -40));
    let next = step(&cfg, &next, &vec![INPUT_RIGHT]);
    assert_eq!(next[0], pos(50, -40));
    let next = step(&cfg, &state, &vec![INPUT_DOWN]);
    assert_eq!(next[0], pos(40, -50));
}

#[test]
fn zero_direction_is_a_no_op() {
    let cfg = default_sim_config();
    let state = vec![pos(7, -9), pos(100, 100)];
    let frame = vec![0u8, INPUT_LEFT | INPUT_RIGHT];
    let next = step(&cfg, &state, &frame);
    assert_eq!(next[0], pos(7, -9));
    // Opposite flags decode to a zero delta, so they do not even clamp.
    assert_eq!(next[1], pos(100, 100));
}

#[test]
fn out_of_range_start_degrades_gracefully() {
    // A position outside the play area is not rejected: a real move clamps
    // it back onto the boundary, and a zero delta leaves it untouched.
    let cfg = SimConfig { limit: 50, move_per_tick: 30 };
    let stranded = vec![pos(120, -70)];
    let next = step(&cfg, &stranded, &vec![INPUT_LEFT]);
    assert_eq!(next[0], pos(50, -50));
    let next = step(&cfg, &stranded, &vec![0u8]);
    assert_eq!(next[0], pos(120, -70));
}

#[test]
fn participants_step_independently() {
    let cfg = SimConfig { limit: 2000, move_per_tick: 10 };
    let state = vec![pos(0, 0), pos(100, 0), pos(0, -100)];
    let frame = vec![INPUT_RIGHT, INPUT_LEFT, INPUT_UP];
    let next = step(&cfg, &state, &frame);
    assert_eq!(next[0], pos(10, 0));
    assert_eq!(next[1], pos(90, 0));
    assert_eq!(next[2], pos(0, -90));
}

#[test]
fn identical_runs_give_identical_states() {
    // The same frames from the same start give byte-identical positions.
    let cfg = default_sim_config();
    let frames = [INPUT_RIGHT, INPUT_RIGHT | INPUT_UP, 0u8, INPUT_DOWN];
    let mut a = two_player_spawns();
    let mut b = two_player_spawns();
    for f in frames.iter() {
        a = step(&cfg, &a, &vec![*f, *f]);
        b = step(&cfg, &b, &vec![*f, *f]);
    }
    assert_eq!(a, b);
}

#[test]
fn stock_layout_and_config() {
    let cfg = default_sim_config();
    assert_eq!(cfg.limit, 2000);
    assert_eq!(cfg.move_per_tick, 12);
    let spawns = two_player_spawns();
    assert_eq!(spawns.len(), 2);
    assert_eq!(spawns[0], pos(-200, 0));
    assert_eq!(spawns[1], pos(200, 0));
}

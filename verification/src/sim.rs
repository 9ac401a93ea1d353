//! Deterministic simulation step over fixed-point coordinates.
//!
//! Coordinates are signed 64-bit integers counting hundredths of a world
//! unit, so every participant computes bit-identical positions; there is no
//! floating point anywhere in the simulation. Each tick, every participant
//! independently moves by the decoded axis deltas of its input symbol scaled
//! by the per-tick speed, and is clamped to the square play area
//! `[-limit, limit]` on both axes. A participant whose symbol decodes to a
//! zero delta does not move at all.

use vstd::prelude::*;

use crate::codec::{spec_dx, spec_dy, decode_direction};

verus! {

/// Upper bound on the play-area half-extent and the per-tick speed, chosen
/// so that `position + delta * speed` can never overflow an `i64`.
pub const MAX_COORD: i64 = 0x1000_0000_0000;

/// Parameters of the deterministic step, fixed for a whole session.
#[derive(Clone, Copy, Debug, PartialEq, Eq, Structural)]
pub struct SimConfig {
    /// Half-extent of the square play area, in subunits. Positions are kept
    /// within `[-limit, limit]` on both axes.
    pub limit: i64,
    /// Distance a participant moves per tick per axis delta, in subunits.
    pub move_per_tick: i64,
}

/// One participant's position, in subunits.
#[derive(Clone, Copy, Debug, PartialEq, Eq, Structural)]
pub struct PlayerPos {
    /// Horizontal coordinate.
    pub x: i64,
    /// Vertical coordinate.
    pub y: i64,
}

/// A configuration is usable when its fields are non-negative and small
/// enough that the step arithmetic cannot overflow.
pub open spec fn config_wf(cfg: SimConfig) -> bool {
    &&& 0 <= cfg.limit <= MAX_COORD
    &&& 0 <= cfg.move_per_tick <= MAX_COORD
}

/// Whether a position lies inside the play area of `cfg`.
pub open spec fn pos_in_range(cfg: SimConfig, p: PlayerPos) -> bool {
    &&& -cfg.limit <= p.x <= cfg.limit
    &&& -cfg.limit <= p.y <= cfg.limit
}

/// Whether every participant of a state lies inside the play area.
pub open spec fn state_wf(cfg: SimConfig, s: Seq<PlayerPos>) -> bool {
    forall|i: int| 0 <= i < s.len() ==> pos_in_range(cfg, s[i])
}

/// Whether a position is small enough for the step arithmetic, play area or
/// not. The step is total on this domain: positions outside the play area
/// are accepted and pulled back in by the clamp rather than rejected.
pub open spec fn pos_bounded(p: PlayerPos) -> bool {
    &&& -MAX_COORD <= p.x <= MAX_COORD
    &&& -MAX_COORD <= p.y <= MAX_COORD
}

/// Whether every participant of a state is small enough for the step
/// arithmetic.
pub open spec fn state_bounded(s: Seq<PlayerPos>) -> bool {
    forall|i: int| 0 <= i < s.len() ==> pos_bounded(s[i])
}

/// Positions inside the play area are in particular small enough for the
/// step arithmetic.
pub proof fn lemma_wf_state_bounded(cfg: SimConfig, s: Seq<PlayerPos>)
    requires
        config_wf(cfg),
        state_wf(cfg, s),
    ensures
        state_bounded(s),
{
    assert forall|i: int| 0 <= i < s.len() implies pos_bounded(s[i]) by {
        assert(pos_in_range(cfg, s[i]));
    }
}

/// Mathematical clamp of `v` into `[lo, hi]`.
pub open spec fn spec_clamp(v: int, lo: int, hi: int) -> int {
    if v < lo {
        lo
    } else if v > hi {
        hi
    } else {
        v
    }
}

/// Next position of a single participant: move by the decoded deltas scaled
/// by the per-tick speed and clamp to the play area; a zero delta is a no-op.
pub open spec fn spec_step_pos(cfg: SimConfig, p: PlayerPos, sym: u8) -> PlayerPos {
    let dx = spec_dx(sym);
    let dy = spec_dy(sym);
    if dx == 0 && dy == 0 {
        p
    } else {
        PlayerPos {
            x: spec_clamp(p.x + dx * cfg.move_per_tick, -cfg.limit as int, cfg.limit as int) as i64,
            y: spec_clamp(p.y + dy * cfg.move_per_tick, -cfg.limit as int, cfg.limit as int) as i64,
        }
    }
}

/// Next state of the whole simulation: every participant steps independently
/// by its own entry of the input frame; there is no interaction between
/// participants, so the result is order-independent by construction.
pub open spec fn spec_step(cfg: SimConfig, s: Seq<PlayerPos>, frame: Seq<u8>) -> Seq<PlayerPos> {
    Seq::new(s.len(), |i: int| spec_step_pos(cfg, s[i], frame[i]))
}

/// State after running the step over a whole sequence of input frames,
/// starting from `s`.
pub open spec fn spec_run(cfg: SimConfig, s: Seq<PlayerPos>, frames: Seq<Seq<u8>>) -> Seq<
    PlayerPos,
>
    decreases frames.len(),
{
    if frames.len() <= 0 {
        s
    } else {
        spec_run(cfg, spec_step(cfg, s, frames[0]), frames.skip(1))
    }
}

/// An axis delta is one of -1, 0 and 1, so scaling by it is selection.
proof fn lemma_unit_mul(d: int, m: int)
    requires
        -1 <= d <= 1,
    ensures
        d * m == (if d == 1 {
            m
        } else if d == -1 {
            -m
        } else {
            0
        }),
{
    assert(d * m == (if d == 1 {
        m
    } else if d == -1 {
        -m
    } else {
        0
    })) by (nonlinear_arith)
        requires
            -1 <= d <= 1,
    ;
}

/// Clamps `v` into `[lo, hi]`.
pub fn clamp_i64(v: i64, lo: i64, hi: i64) -> (r: i64)
    requires
        lo <= hi,
    ensures
        r == spec_clamp(v as int, lo as int, hi as int),
{
    if v < lo {
        lo
    } else if v > hi {
        hi
    } else {
        v
    }
}

/// Steps one participant. Total: every input byte is meaningful (symbols
/// with no movement bits leave the position untouched), and a start outside
/// the play area is not rejected — any actual move clamps it back in.
pub fn step_pos(cfg: &SimConfig, p: &PlayerPos, sym: u8) -> (next: PlayerPos)
    requires
        config_wf(*cfg),
        pos_bounded(*p),
    ensures
        next == spec_step_pos(*cfg, *p, sym),
        pos_bounded(next),
        pos_in_range(*cfg, *p) ==> pos_in_range(*cfg, next),
        spec_dx(sym) != 0 || spec_dy(sym) != 0 ==> pos_in_range(*cfg, next),
{
    let (dx, dy) = decode_direction(sym);
    if dx == 0 && dy == 0 {
        *p
    } else {
        let mx: i64 = if dx == 1 {
            cfg.move_per_tick
        } else if dx == -1 {
            -cfg.move_per_tick
        } else {
            0
        };
        let my: i64 = if dy == 1 {
            cfg.move_per_tick
        } else if dy == -1 {
            -cfg.move_per_tick
        } else {
            0
        };
        proof {
            lemma_unit_mul(spec_dx(sym), cfg.move_per_tick as int);
            lemma_unit_mul(spec_dy(sym), cfg.move_per_tick as int);
        }
        PlayerPos {
            x: clamp_i64(p.x + mx, -cfg.limit, cfg.limit),
            y: clamp_i64(p.y + my, -cfg.limit, cfg.limit),
        }
    }
}

/// The deterministic step over the whole state: participant `i` moves by the
/// decoded deltas of `frame[i]`. Pure and total; the result is exactly
/// [`spec_step`], so two runs from equal inputs cannot differ, and starting
/// positions outside the play area degrade gracefully instead of being
/// rejected.
pub fn step(cfg: &SimConfig, state: &Vec<PlayerPos>, frame: &Vec<u8>) -> (next: Vec<PlayerPos>)
    requires
        config_wf(*cfg),
        state_bounded(state@),
        frame@.len() == state@.len(),
    ensures
        next@ == spec_step(*cfg, state@, frame@),
        next@.len() == state@.len(),
        state_bounded(next@),
        state_wf(*cfg, state@) ==> state_wf(*cfg, next@),
{
    let mut next: Vec<PlayerPos> = Vec::new();
    let n = state.len();
    let mut i: usize = 0;
    while i < n
        invariant
            i <= n,
            n == state@.len(),
            frame@.len() == n,
            config_wf(*cfg),
            state_bounded(state@),
            next@.len() == i,
            forall|j: int|
                0 <= j < i ==> next@[j] == spec_step_pos(*cfg, state@[j], frame@[j]),
            forall|j: int| 0 <= j < i ==> pos_bounded(#[trigger] next@[j]),
            state_wf(*cfg, state@) ==> (forall|j: int|
                0 <= j < i ==> pos_in_range(*cfg, #[trigger] next@[j])),
        decreases n - i,
    {
        let p = step_pos(cfg, &state[i], frame[i]);
        next.push(p);
        i = i + 1;
    }
    proof {
        assert(next@ =~= spec_step(*cfg, state@, frame@));
    }
    next
}

/// Step parameters of the stock two-avatar arena: a 41-by-41-unit grid
/// leaves a half-extent of 20 units once the avatar's own half-width is
/// kept inside, and an avatar crosses about 12 subunits per tick at a
/// 60-ticks-per-second rate.
pub fn default_sim_config() -> (cfg: SimConfig)
    ensures
        cfg.limit == 2000,
        cfg.move_per_tick == 12,
        config_wf(cfg),
{
    SimConfig { limit: 2000, move_per_tick: 12 }
}

/// Spawn layout of the stock two-avatar match: handle 0 two units left of
/// the origin, handle 1 two units right, both on the axis.
pub fn two_player_spawns() -> (v: Vec<PlayerPos>)
    ensures
        v@.len() == 2,
        v@[0] == (PlayerPos { x: -200i64, y: 0i64 }),
        v@[1] == (PlayerPos { x: 200i64, y: 0i64 }),
        forall|cfg: SimConfig| config_wf(cfg) && cfg.limit >= 200 ==> state_wf(cfg, v@),
{
    let mut v: Vec<PlayerPos> = Vec::new();
    v.push(PlayerPos { x: -200, y: 0 });
    v.push(PlayerPos { x: 200, y: 0 });
    v
}

/// Copies a state vector element by element.
pub fn copy_state(v: &Vec<PlayerPos>) -> (r: Vec<PlayerPos>)
    ensures
        r@ == v@,
{
    let mut r: Vec<PlayerPos> = Vec::new();
    let mut i: usize = 0;
    while i < v.len()
        invariant
            i <= v@.len(),
            r@ == v@.take(i as int),
        decreases v@.len() - i,
    {
        r.push(v[i]);
        proof {
            assert(r@ =~= v@.take(i as int + 1));
        }
        i = i + 1;
    }
    proof {
        assert(v@.take(v@.len() as int) =~= v@);
    }
    r
}

/// Law: determinism. Runs started from extensionally equal states and fed
/// tick-for-tick extensionally equal input frames end in the same state; the
/// step sequence leaves no room for machine- or run-dependent divergence.
pub proof fn lemma_run_deterministic(
    cfg: SimConfig,
    s1: Seq<PlayerPos>,
    s2: Seq<PlayerPos>,
    f1: Seq<Seq<u8>>,
    f2: Seq<Seq<u8>>,
)
    requires
        s1 =~= s2,
        f1.len() == f2.len(),
        forall|t: int| 0 <= t < f1.len() ==> f1[t] =~= f2[t],
    ensures
        spec_run(cfg, s1, f1) == spec_run(cfg, s2, f2),
    decreases f1.len(),
{
    if f1.len() == 0 {
    } else {
        assert(spec_step(cfg, s1, f1[0]) =~= spec_step(cfg, s2, f2[0]));
        assert(forall|t: int| 0 <= t < f1.skip(1).len() ==> f1.skip(1)[t] =~= #[trigger] f2.skip(
            1,
        )[t]);
        lemma_run_deterministic(
            cfg,
            spec_step(cfg, s1, f1[0]),
            spec_step(cfg, s2, f2[0]),
            f1.skip(1),
            f2.skip(1),
        );
    }
}

/// Appending one frame to a run is one more step: the shape that lets a
/// scheduler advance tick by tick.
pub proof fn lemma_run_snoc(cfg: SimConfig, s: Seq<PlayerPos>, frames: Seq<Seq<u8>>, f: Seq<u8>)
    ensures
        spec_run(cfg, s, frames.push(f)) == spec_step(cfg, spec_run(cfg, s, frames), f),
    decreases frames.len(),
{
    let pf = frames.push(f);
    if frames.len() == 0 {
        assert(pf[0] == f);
        assert(pf.skip(1) =~= Seq::<Seq<u8>>::empty());
        assert(spec_run(cfg, s, pf) == spec_run(cfg, spec_step(cfg, s, f), pf.skip(1)));
        assert(spec_run(cfg, spec_step(cfg, s, f), pf.skip(1)) == spec_step(cfg, s, f));
        assert(spec_run(cfg, s, frames) == s);
    } else {
        assert(pf[0] == frames[0]);
        assert(spec_run(cfg, s, pf) == spec_run(cfg, spec_step(cfg, s, frames[0]), pf.skip(1)));
        assert(pf.skip(1) =~= frames.skip(1).push(f));
        lemma_run_snoc(cfg, spec_step(cfg, s, frames[0]), frames.skip(1), f);
        assert(spec_run(cfg, s, frames) == spec_run(
            cfg,
            spec_step(cfg, s, frames[0]),
            frames.skip(1),
        ));
    }
}

/// Law: rollback equivalence. Simulating all frames directly equals
/// simulating the first `k` frames, restoring that intermediate state as a
/// snapshot, and replaying the remaining frames from it — so a rollback that
/// replays from a snapshot with the final confirmed inputs ends exactly
/// where a direct run with those inputs ends.
pub proof fn lemma_run_split(cfg: SimConfig, s: Seq<PlayerPos>, frames: Seq<Seq<u8>>, k: int)
    requires
        0 <= k <= frames.len(),
    ensures
        spec_run(cfg, s, frames) == spec_run(
            cfg,
            spec_run(cfg, s, frames.take(k)),
            frames.skip(k),
        ),
    decreases k,
{
    if k == 0 {
        assert(frames.take(0) =~= Seq::<Seq<u8>>::empty());
        assert(frames.skip(0) =~= frames);
    } else {
        assert(frames.take(k)[0] == frames[0]);
        assert(frames.take(k).skip(1) =~= frames.skip(1).take(k - 1));
        assert(frames.skip(1).skip(k - 1) =~= frames.skip(k));
        lemma_run_split(cfg, spec_step(cfg, s, frames[0]), frames.skip(1), k - 1);
    }
}

/// Law: boundary. A rightward move that would overshoot the play area stops
/// at exactly the limit, and symmetrically no move ever escapes
/// `[-limit, limit]` on either axis.
pub proof fn lemma_step_clamps_to_limit(cfg: SimConfig, p: PlayerPos, sym: u8)
    requires
        config_wf(cfg),
        pos_in_range(cfg, p),
    ensures
        spec_dx(sym) == 1 && p.x + cfg.move_per_tick > cfg.limit ==> spec_step_pos(
            cfg,
            p,
            sym,
        ).x == cfg.limit,
        spec_dx(sym) == -1 && p.x - cfg.move_per_tick < -cfg.limit ==> spec_step_pos(
            cfg,
            p,
            sym,
        ).x == -cfg.limit,
        pos_in_range(cfg, spec_step_pos(cfg, p, sym)),
{
}

} // verus!

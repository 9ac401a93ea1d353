//! Rollback scheduler: buffers confirmed input per participant per tick,
//! predicts the missing symbols, advances the deterministic simulation, and
//! rolls back and replays when a late confirmation contradicts a prediction
//! that was already simulated.
//!
//! The model of a scheduler is the partial map from `(participant, tick)` to
//! the confirmed symbol. The symbol actually fed to the step for a tick is
//! the *best* symbol: the confirmed one when present, otherwise the
//! prediction — the participant's most recently confirmed symbol before that
//! tick, or neutral when there is none. The scheduler keeps one state
//! snapshot per simulated tick so a rollback can restore the exact state at
//! the divergence tick and replay forward.
//!
//! Confirmations older than the rollback window are dropped with a desync
//! warning instead of triggering a rollback: participants that fall further
//! behind than the window are knowingly left unreconciled. This is a
//! documented consistency tradeoff, not an oversight.
//!
//! The window bounds rollback depth, not memory: the snapshot and input
//! buffers deliberately keep the whole history since tick 0, so that every
//! snapshot's meaning stays a plain function of the confirmed-input map.
//! A long-lived session that cannot afford that growth should be restarted
//! match by match, which is also the session lifecycle's unit of work.

use vstd::prelude::*;

use crate::sim::{
    SimConfig, PlayerPos, config_wf, state_wf, lemma_wf_state_bounded, spec_step, spec_run, step,
    lemma_run_snoc, lemma_run_split, copy_state,
};

verus! {

/// Prediction for participant `p` at tick `t`: the symbol of the most recent
/// confirmed tick before `t`, or neutral (0) when nothing earlier is
/// confirmed.
pub open spec fn spec_pred(m: Map<(int, int), u8>, p: int, t: int) -> u8
    decreases t,
{
    if t <= 0 {
        0u8
    } else if m.contains_key((p, t - 1)) {
        m[(p, t - 1)]
    } else {
        spec_pred(m, p, t - 1)
    }
}

/// Best known symbol for participant `p` at tick `t`: confirmed if present,
/// otherwise the prediction.
pub open spec fn spec_best(m: Map<(int, int), u8>, p: int, t: int) -> u8 {
    if m.contains_key((p, t)) {
        m[(p, t)]
    } else {
        spec_pred(m, p, t)
    }
}

/// Input frame fed to the step at tick `t`: the best symbol of every
/// participant.
pub open spec fn spec_frame(m: Map<(int, int), u8>, n: int, t: int) -> Seq<u8> {
    Seq::new(n as nat, |p: int| spec_best(m, p, t))
}

/// The frames of ticks `0 .. k`.
pub open spec fn spec_frames(m: Map<(int, int), u8>, n: int, k: int) -> Seq<Seq<u8>> {
    Seq::new(k as nat, |t: int| spec_frame(m, n, t))
}

/// The state the simulation must hold at tick `t`, given confirmed inputs
/// `m`: run the deterministic step over the best frames of ticks `0 .. t`.
pub open spec fn spec_state_at(
    cfg: SimConfig,
    init: Seq<PlayerPos>,
    m: Map<(int, int), u8>,
    n: int,
    t: int,
) -> Seq<PlayerPos> {
    spec_run(cfg, init, spec_frames(m, n, t))
}

/// One buffered input slot of one participant at one tick.
#[derive(Clone, Copy)]
struct InputCell {
    confirmed: bool,
    symbol: u8,
}

/// What happened to a confirmed input that was handed to the scheduler.
#[derive(Clone, Copy, Debug, PartialEq, Eq, Structural)]
pub enum InputOutcome {
    /// The symbol was recorded; no already-simulated tick is contradicted.
    Recorded,
    /// The symbol was recorded and contradicts a prediction used for an
    /// already-simulated tick: the next [`Scheduler::advance`] will roll
    /// back to that tick and replay.
    RollbackScheduled,
    /// The symbol arrived for a tick older than the rollback window and was
    /// dropped; the accepted state is knowingly not corrected.
    StaleDropped,
}

/// Why a confirmed input was rejected.
#[derive(Clone, Copy, Debug, PartialEq, Eq, Structural)]
pub enum InputError {
    /// A different symbol was already confirmed for that participant and
    /// tick; a confirmation is immutable once set.
    Conflicting,
}

/// The rollback scheduler owning the confirmed-input history, the snapshot
/// per simulated tick, and the simulation frontier.
pub struct Scheduler {
    cfg: SimConfig,
    num_players: usize,
    local_handle: usize,
    window: usize,
    initial: Vec<PlayerPos>,
    cells: Vec<Vec<InputCell>>,
    snapshots: Vec<Vec<PlayerPos>>,
    frontier: usize,
    rollback_from: Option<usize>,
}

impl Scheduler {
    /// Number of participants of the session.
    pub closed spec fn players(self) -> int {
        self.num_players as int
    }

    /// Handle of the local participant.
    pub closed spec fn local(self) -> int {
        self.local_handle as int
    }

    /// Maximum rollback depth in ticks.
    pub closed spec fn window_spec(self) -> int {
        self.window as int
    }

    /// The step parameters the session was started with.
    pub closed spec fn cfg_spec(self) -> SimConfig {
        self.cfg
    }

    /// The state the session was started from.
    pub closed spec fn initial_spec(self) -> Seq<PlayerPos> {
        self.initial@
    }

    /// Number of ticks simulated so far.
    pub closed spec fn frontier_spec(self) -> int {
        self.frontier as int
    }

    /// The tick a pending rollback will restore and replay from, if any.
    pub closed spec fn pending(self) -> Option<int> {
        match self.rollback_from {
            Some(t) => Some(t as int),
            None => None,
        }
    }

    /// The latest simulated snapshot: what the presentation layer reads.
    /// While a rollback is pending this is the stale state simulated before
    /// the contradicting confirmation arrived; with none pending it equals
    /// [`Self::target`] at the frontier.
    pub closed spec fn latest_snapshot(self) -> Seq<PlayerPos> {
        self.snapshots@[self.frontier as int]@
    }

    /// The confirmed inputs recorded so far, as a partial map from
    /// `(participant, tick)` to the symbol.
    pub closed spec fn confirmed(self) -> Map<(int, int), u8> {
        Map::new(
            |k: (int, int)|
                0 <= k.0 < self.num_players as int && 0 <= k.1 < self.cells@.len()
                    && self.cells@[k.1]@[k.0].confirmed,
            |k: (int, int)| self.cells@[k.1]@[k.0].symbol,
        )
    }

    /// The state the simulation must hold at tick `t` given the confirmed
    /// inputs recorded so far.
    pub open spec fn target(self, t: int) -> Seq<PlayerPos> {
        spec_state_at(self.cfg_spec(), self.initial_spec(), self.confirmed(), self.players(), t)
    }

    /// Snapshots are guaranteed to match [`Self::target`] up to this tick:
    /// the pending rollback tick while one is pending, else the frontier.
    pub open spec fn valid_up_to(self) -> int {
        match self.pending() {
            Some(rb) => rb,
            None => self.frontier_spec(),
        }
    }

    /// The input buffer rows each hold one slot per participant.
    spec fn cells_wf(self) -> bool {
        &&& 1 <= self.num_players
        &&& forall|t: int|
            0 <= t < self.cells@.len() ==> (#[trigger] self.cells@[t])@.len()
                == self.num_players as int
    }

    /// Internal well-formedness: sizes agree, positions stay in the play
    /// area, and every snapshot up to [`Self::valid_up_to`] is exactly the
    /// state that direct simulation with the best known inputs yields.
    pub closed spec fn wf(self) -> bool {
        &&& config_wf(self.cfg)
        &&& self.cells_wf()
        &&& self.local_handle < self.num_players
        &&& self.initial@.len() == self.num_players as int
        &&& state_wf(self.cfg, self.initial@)
        &&& self.cells@.len() >= self.frontier as int
        &&& self.snapshots@.len() == self.frontier as int + 1
        &&& forall|t: int|
            0 <= t < self.snapshots@.len() ==> (#[trigger] self.snapshots@[t])@.len()
                == self.num_players as int && state_wf(self.cfg, self.snapshots@[t]@)
        &&& forall|t: int|
            0 <= t <= self.valid_up_to() ==> (#[trigger] self.snapshots@[t])@ == self.target(t)
        &&& match self.rollback_from {
            Some(rb) => rb < self.frontier,
            None => true,
        }
    }

    /// Starts a session of `initial.len()` participants at tick 0 with no
    /// confirmed input, no pending rollback, and `initial` as the state.
    pub fn new(cfg: SimConfig, initial: Vec<PlayerPos>, local_handle: usize, window: usize) -> (s:
        Scheduler)
        requires
            config_wf(cfg),
            state_wf(cfg, initial@),
            initial@.len() >= 1,
            local_handle < initial@.len(),
        ensures
            s.wf(),
            s.cfg_spec() == cfg,
            s.players() == initial@.len(),
            s.local() == local_handle as int,
            s.window_spec() == window as int,
            s.initial_spec() == initial@,
            s.frontier_spec() == 0,
            s.pending() is None,
            s.confirmed() == Map::<(int, int), u8>::empty(),
            s.latest_snapshot() == initial@,
    {
        let first = copy_state(&initial);
        let mut snapshots: Vec<Vec<PlayerPos>> = Vec::new();
        snapshots.push(first);
        let s = Scheduler {
            cfg,
            num_players: initial.len(),
            local_handle,
            window,
            initial,
            cells: Vec::new(),
            snapshots,
            frontier: 0,
            rollback_from: None,
        };
        proof {
            assert(s.confirmed() =~= Map::<(int, int), u8>::empty());
            assert(spec_frames(s.confirmed(), s.players(), 0) =~= Seq::<Seq<u8>>::empty());
            assert(s.target(0) == s.initial_spec());
        }
        s
    }

    /// Number of participants.
    pub fn num_players(&self) -> (n: usize)
        ensures
            n as int == self.players(),
    {
        self.num_players
    }

    /// Handle of the local participant.
    pub fn local_handle(&self) -> (h: usize)
        ensures
            h as int == self.local(),
    {
        self.local_handle
    }

    /// Number of ticks simulated so far.
    pub fn current_tick(&self) -> (t: usize)
        ensures
            t as int == self.frontier_spec(),
    {
        self.frontier
    }

    /// Whether a rollback is pending, i.e. a confirmed symbol has
    /// contradicted a prediction already used and the next
    /// [`Self::advance`] will replay instead of moving forward.
    pub fn rollback_pending(&self) -> (b: bool)
        ensures
            b == (self.pending() is Some),
    {
        self.rollback_from.is_some()
    }

    /// Read query for the presentation layer: the per-participant positions
    /// of the latest simulated state. While a rollback is pending this is
    /// the stale, not yet reconciled state; once no rollback is pending it
    /// is exactly the state direct simulation with the best known inputs
    /// yields.
    pub fn positions(&self) -> (v: Vec<PlayerPos>)
        requires
            self.wf(),
        ensures
            v@ == self.latest_snapshot(),
            v@.len() == self.players(),
            state_wf(self.cfg_spec(), v@),
            self.pending() is None ==> v@ == self.target(self.frontier_spec()),
    {
        copy_state(&self.snapshots[self.frontier])
    }

    /// Read query for the camera: the local participant's current position.
    pub fn local_position(&self) -> (p: PlayerPos)
        requires
            self.wf(),
        ensures
            p == self.latest_snapshot()[self.local()],
            self.pending() is None ==> p == self.target(self.frontier_spec())[self.local()],
    {
        self.snapshots[self.frontier][self.local_handle]
    }

    /// Best known symbol of participant `p` at tick `t`, walking back to the
    /// most recent confirmation when `t` itself is unconfirmed.
    fn best_symbol(&self, p: usize, t: usize) -> (s: u8)
        requires
            self.cells_wf(),
            (p as int) < self.players(),
            (t as int) < self.cells@.len(),
        ensures
            s == spec_best(self.confirmed(), p as int, t as int),
    {
        let ghost m = self.confirmed();
        let cell = self.cells[t][p];
        if cell.confirmed {
            proof {
                assert(m.contains_key((p as int, t as int)));
            }
            return cell.symbol;
        }
        proof {
            assert(!m.contains_key((p as int, t as int)));
        }
        let mut t2 = t;
        while t2 > 0
            invariant
                self.cells_wf(),
                (p as int) < self.players(),
                t2 <= t,
                (t as int) < self.cells@.len(),
                m == self.confirmed(),
                !m.contains_key((p as int, t as int)),
                spec_pred(m, p as int, t as int) == spec_pred(m, p as int, t2 as int),
            decreases t2,
        {
            let c = self.cells[t2 - 1][p];
            if c.confirmed {
                proof {
                    assert(m.contains_key((p as int, t2 as int - 1)));
                    assert(spec_pred(m, p as int, t2 as int) == m[(p as int, t2 as int - 1)]);
                }
                return c.symbol;
            }
            proof {
                assert(!m.contains_key((p as int, t2 as int - 1)));
                assert(spec_pred(m, p as int, t2 as int) == spec_pred(m, p as int, t2 as int - 1));
            }
            t2 = t2 - 1;
        }
        0
    }

    /// Input frame for tick `t`: the best symbol of every participant.
    fn build_frame(&self, t: usize) -> (f: Vec<u8>)
        requires
            self.cells_wf(),
            (t as int) < self.cells@.len(),
        ensures
            f@ == spec_frame(self.confirmed(), self.players(), t as int),
            f@.len() == self.players(),
    {
        let mut f: Vec<u8> = Vec::new();
        let mut p: usize = 0;
        while p < self.num_players
            invariant
                self.cells_wf(),
                p <= self.num_players,
                (t as int) < self.cells@.len(),
                f@.len() == p,
                forall|j: int|
                    0 <= j < p ==> f@[j] == spec_best(self.confirmed(), j, t as int),
            decreases self.num_players - p,
        {
            let s = self.best_symbol(p, t);
            f.push(s);
            p = p + 1;
        }
        proof {
            assert(f@ =~= spec_frame(self.confirmed(), self.players(), t as int));
        }
        f
    }

    /// Grows the per-tick input buffer to cover tick `upto`, adding
    /// unconfirmed slots only: no recorded confirmation changes.
    fn ensure_rows(&mut self, upto: usize)
        requires
            old(self).wf(),
            upto < usize::MAX,
        ensures
            final(self).wf(),
            final(self).cfg == old(self).cfg,
            final(self).num_players == old(self).num_players,
            final(self).local_handle == old(self).local_handle,
            final(self).window == old(self).window,
            final(self).initial == old(self).initial,
            final(self).snapshots == old(self).snapshots,
            final(self).frontier == old(self).frontier,
            final(self).rollback_from == old(self).rollback_from,
            final(self).confirmed() == old(self).confirmed(),
            final(self).cells@.len() > upto as int,
    {
        let ghost m0 = old(self).confirmed();
        while self.cells.len() <= upto
            invariant
                self.wf(),
                self.cfg == old(self).cfg,
                self.num_players == old(self).num_players,
                self.local_handle == old(self).local_handle,
                self.window == old(self).window,
                self.initial == old(self).initial,
                self.snapshots == old(self).snapshots,
                self.frontier == old(self).frontier,
                self.rollback_from == old(self).rollback_from,
                self.confirmed() == m0,
                upto < usize::MAX,
            decreases upto + 1 - self.cells@.len(),
        {
            let row = blank_row(self.num_players);
            let ghost prev = *self;
            self.cells.push(row);
            proof {
                assert(self.confirmed() =~= m0);
                assert forall|t2: int|
                    0 <= t2 <= self.valid_up_to() implies (#[trigger] self.snapshots@[t2])@
                    == self.target(t2) by {
                    assert(prev.snapshots@[t2]@ == prev.target(t2));
                }
            }
        }
    }

    /// Records a confirmed symbol for `handle` at `tick`, received from the
    /// network or locally authoritative. [`record_post`] gives the exact
    /// case analysis; after `RollbackScheduled` the next [`Self::advance`]
    /// restores the snapshot of the contradicted tick and replays.
    pub fn receive_confirmed(&mut self, handle: usize, tick: usize, symbol: u8) -> (r: Result<
        InputOutcome,
        InputError,
    >)
        requires
            old(self).wf(),
            (handle as int) < old(self).players(),
            tick < usize::MAX - 1,
        ensures
            final(self).wf(),
            record_post(*old(self), *final(self), handle as int, tick as int, symbol, r),
    {
        let ghost m0 = old(self).confirmed();
        let ghost k = (handle as int, tick as int);
        // Older than the rollback window: report the desync, correct nothing.
        if tick < self.frontier && self.frontier - tick > self.window {
            return Ok(InputOutcome::StaleDropped);
        }
        // A confirmation, once set, is immutable.
        if tick < self.cells.len() {
            let cell = self.cells[tick][handle];
            if cell.confirmed {
                proof {
                    assert(m0.contains_key(k));
                    assert(m0[k] == cell.symbol);
                }
                if cell.symbol == symbol {
                    proof {
                        assert(m0.insert(k, symbol) =~= m0);
                    }
                    return Ok(InputOutcome::Recorded);
                } else {
                    return Err(InputError::Conflicting);
                }
            }
        }
        proof {
            assert(!m0.contains_key(k));
        }
        // Does the symbol contradict a prediction already simulated?
        let mut schedules = false;
        if tick < self.frontier {
            let best = self.best_symbol(handle, tick);
            if best != symbol {
                schedules = true;
            }
        }
        // Make room for the tick, leaving every recorded confirmation as is.
        self.ensure_rows(tick);
        let ghost before = *self;
        self.cells[tick][handle] = InputCell { confirmed: true, symbol };
        proof {
            assert(self.confirmed() =~= m0.insert(k, symbol));
        }
        if schedules {
            let nrb: usize = match self.rollback_from {
                Some(rb) => if tick < rb {
                    tick
                } else {
                    rb
                },
                None => tick,
            };
            self.rollback_from = Some(nrb);
            proof {
                let n = self.players();
                assert forall|t2: int|
                    0 <= t2 <= self.valid_up_to() implies (#[trigger] self.snapshots@[t2])@
                    == self.target(t2) by {
                    lemma_insert_frames_prefix(m0, n, handle as int, tick as int, symbol, t2);
                    assert(spec_frames(self.confirmed(), n, t2) == spec_frames(m0, n, t2));
                    assert(old(self).snapshots@[t2]@ == old(self).target(t2));
                }
            }
            Ok(InputOutcome::RollbackScheduled)
        } else {
            proof {
                let n = self.players();
                if tick < self.frontier {
                    assert(symbol == spec_best(m0, handle as int, tick as int));
                    assert forall|t2: int|
                        0 <= t2 <= self.valid_up_to() implies (#[trigger] self.snapshots@[t2])@
                        == self.target(t2) by {
                        lemma_insert_matching_frames(
                            m0,
                            n,
                            handle as int,
                            tick as int,
                            symbol,
                            t2,
                        );
                        assert(spec_frames(self.confirmed(), n, t2) == spec_frames(m0, n, t2));
                        assert(old(self).snapshots@[t2]@ == old(self).target(t2));
                    }
                } else {
                    assert forall|t2: int|
                        0 <= t2 <= self.valid_up_to() implies (#[trigger] self.snapshots@[t2])@
                        == self.target(t2) by {
                        lemma_insert_frames_prefix(m0, n, handle as int, tick as int, symbol, t2);
                        assert(spec_frames(self.confirmed(), n, t2) == spec_frames(m0, n, t2));
                        assert(old(self).snapshots@[t2]@ == old(self).target(t2));
                    }
                }
            }
            Ok(InputOutcome::Recorded)
        }
    }

    /// Records the local participant's own symbol for `tick`. Locally
    /// submitted input is authoritative immediately, so this is a
    /// confirmation under the local handle; the caller applies the session's
    /// input delay when choosing `tick`.
    pub fn submit_local_input(&mut self, tick: usize, symbol: u8) -> (r: Result<
        InputOutcome,
        InputError,
    >)
        requires
            old(self).wf(),
            tick < usize::MAX - 1,
        ensures
            final(self).wf(),
            record_post(*old(self), *final(self), old(self).local(), tick as int, symbol, r),
    {
        let h = self.local_handle;
        self.receive_confirmed(h, tick, symbol)
    }

    /// Advances the session. With no rollback pending, simulates exactly one
    /// new tick with the best known frame. With one pending, restores the
    /// snapshot taken at the pending tick and re-runs every tick from there
    /// up to the frontier with the now-best-known frames, overwriting the
    /// intermediate snapshots. Either way no rollback is pending afterwards,
    /// so the latest snapshot is exactly what direct simulation of every
    /// tick with the best known inputs yields.
    pub fn advance(&mut self)
        requires
            old(self).wf(),
            old(self).frontier_spec() + 1 < usize::MAX,
        ensures
            final(self).wf(),
            final(self).cfg_spec() == old(self).cfg_spec(),
            final(self).players() == old(self).players(),
            final(self).local() == old(self).local(),
            final(self).window_spec() == old(self).window_spec(),
            final(self).initial_spec() == old(self).initial_spec(),
            final(self).confirmed() == old(self).confirmed(),
            final(self).pending() is None,
            final(self).frontier_spec() == match old(self).pending() {
                Some(_) => old(self).frontier_spec(),
                None => old(self).frontier_spec() + 1,
            },
            final(self).latest_snapshot() == final(self).target(final(self).frontier_spec()),
    {
        let ghost m0 = old(self).confirmed();
        let ghost cfg0 = self.cfg;
        let ghost init0 = self.initial@;
        let ghost n0 = self.players();
        match self.rollback_from {
            Some(rb) => {
                self.rollback_from = None;
                self.snapshots.truncate(rb + 1);
                let mut t = rb;
                while t < self.frontier
                    invariant
                        old(self).wf(),
                        self.cfg == old(self).cfg,
                        self.num_players == old(self).num_players,
                        self.local_handle == old(self).local_handle,
                        self.window == old(self).window,
                        self.initial == old(self).initial,
                        self.cells == old(self).cells,
                        self.frontier == old(self).frontier,
                        self.rollback_from is None,
                        cfg0 == self.cfg,
                        init0 == self.initial@,
                        n0 == self.players(),
                        m0 == self.confirmed(),
                        rb <= t <= self.frontier,
                        self.snapshots@.len() == t as int + 1,
                        forall|t2: int|
                            0 <= t2 < self.snapshots@.len() ==> (#[trigger] self.snapshots@[t2])@.len()
                                == n0 && state_wf(cfg0, self.snapshots@[t2]@),
                        forall|t2: int|
                            0 <= t2 <= t as int ==> (#[trigger] self.snapshots@[t2])@
                                == spec_state_at(cfg0, init0, m0, n0, t2),
                    decreases self.frontier - t,
                {
                    proof {
                        assert(self.cells_wf());
                        lemma_wf_state_bounded(cfg0, self.snapshots@[t as int]@);
                    }
                    let frame = self.build_frame(t);
                    let next = step(&self.cfg, &self.snapshots[t], &frame);
                    proof {
                        lemma_frames_snoc(m0, n0, t as int);
                        lemma_run_snoc(cfg0, init0, spec_frames(m0, n0, t as int), spec_frame(m0, n0, t as int));
                    }
                    self.snapshots.push(next);
                    t = t + 1;
                }
            },
            None => {
                let fr = self.frontier;
                self.ensure_rows(fr);
                let frame = self.build_frame(fr);
                proof {
                    lemma_wf_state_bounded(cfg0, self.snapshots@[fr as int]@);
                }
                let next = step(&self.cfg, &self.snapshots[fr], &frame);
                proof {
                    lemma_frames_snoc(m0, n0, fr as int);
                    lemma_run_snoc(cfg0, init0, spec_frames(m0, n0, fr as int), spec_frame(m0, n0, fr as int));
                }
                self.snapshots.push(next);
                self.frontier = fr + 1;
            },
        }
    }
}

/// What recording a confirmed symbol does, relating the scheduler before
/// (`pre`) and after (`post`) the call. Exactly one case applies to any
/// input:
/// - `StaleDropped`: the tick is older than the rollback window; nothing is
///   recorded and the accepted state is knowingly left uncorrected.
/// - `Conflicting`: a different symbol was already confirmed there; nothing
///   changes, confirmations being immutable.
/// - `Recorded`: the symbol is recorded and no already-simulated tick is
///   contradicted (future tick, duplicate of an existing confirmation, or it
///   matches the prediction that was used).
/// - `RollbackScheduled`: the symbol is recorded, contradicts the prediction
///   used for an already-simulated tick, and the pending rollback tick
///   becomes the earliest contradicted tick.
pub open spec fn record_post(
    pre: Scheduler,
    post: Scheduler,
    handle: int,
    tick: int,
    symbol: u8,
    r: Result<InputOutcome, InputError>,
) -> bool {
    let k = (handle, tick);
    &&& post.cfg_spec() == pre.cfg_spec()
    &&& post.players() == pre.players()
    &&& post.local() == pre.local()
    &&& post.window_spec() == pre.window_spec()
    &&& post.initial_spec() == pre.initial_spec()
    &&& post.frontier_spec() == pre.frontier_spec()
    &&& post.latest_snapshot() == pre.latest_snapshot()
    &&& match r {
        Ok(InputOutcome::StaleDropped) => {
            &&& post.confirmed() == pre.confirmed()
            &&& post.pending() == pre.pending()
            &&& pre.frontier_spec() > tick + pre.window_spec()
        },
        Ok(InputOutcome::Recorded) => {
            &&& post.confirmed() == pre.confirmed().insert(k, symbol)
            &&& post.pending() == pre.pending()
            &&& pre.frontier_spec() <= tick + pre.window_spec()
            &&& (tick >= pre.frontier_spec() || pre.confirmed().contains_key(k) || symbol
                == spec_best(pre.confirmed(), handle, tick))
            &&& (pre.confirmed().contains_key(k) ==> pre.confirmed()[k] == symbol)
        },
        Ok(InputOutcome::RollbackScheduled) => {
            &&& post.confirmed() == pre.confirmed().insert(k, symbol)
            &&& pre.frontier_spec() <= tick + pre.window_spec()
            &&& tick < pre.frontier_spec()
            &&& !pre.confirmed().contains_key(k)
            &&& symbol != spec_best(pre.confirmed(), handle, tick)
            &&& post.pending() == Some(
                match pre.pending() {
                    Some(rb) => if tick < rb {
                        tick
                    } else {
                        rb
                    },
                    None => tick,
                },
            )
        },
        Err(InputError::Conflicting) => {
            &&& post.confirmed() == pre.confirmed()
            &&& post.pending() == pre.pending()
            &&& pre.frontier_spec() <= tick + pre.window_spec()
            &&& pre.confirmed().contains_key(k)
            &&& pre.confirmed()[k] != symbol
        },
    }
}

/// Inserting a confirmation at tick `t` leaves predictions for ticks up to
/// `t` untouched: a prediction only consults strictly earlier ticks.
proof fn lemma_insert_pred_prefix(
    m: Map<(int, int), u8>,
    p: int,
    t: int,
    s: u8,
    p2: int,
    t2: int,
)
    requires
        t2 <= t,
    ensures
        spec_pred(m.insert((p, t), s), p2, t2) == spec_pred(m, p2, t2),
    decreases t2,
{
    if t2 <= 0 {
    } else {
        assert((p2, t2 - 1) != (p, t));
        lemma_insert_pred_prefix(m, p, t, s, p2, t2 - 1);
    }
}

/// Inserting a confirmation at tick `t` leaves the best symbol of every
/// strictly earlier tick, and of other participants at `t`, untouched.
proof fn lemma_insert_best_prefix(
    m: Map<(int, int), u8>,
    p: int,
    t: int,
    s: u8,
    p2: int,
    t2: int,
)
    requires
        t2 < t || (t2 == t && p2 != p),
    ensures
        spec_best(m.insert((p, t), s), p2, t2) == spec_best(m, p2, t2),
{
    lemma_insert_pred_prefix(m, p, t, s, p2, t2);
    assert((p2, t2) != (p, t));
}

/// Law: rollback equivalence. Simulating ticks `0 .. fr` directly with the
/// best known inputs ends in the same state as simulating to tick `rb`,
/// restoring that state as a snapshot, and replaying ticks `rb .. fr` with
/// the same inputs — which is exactly what [`Scheduler::advance`] does
/// after a late confirmation, so a rollback-and-replay converges on the
/// state a direct run with the final confirmed inputs would have produced.
pub proof fn lemma_rollback_equivalence(
    cfg: SimConfig,
    init: Seq<PlayerPos>,
    m: Map<(int, int), u8>,
    n: int,
    rb: int,
    fr: int,
)
    requires
        0 <= n,
        0 <= rb <= fr,
    ensures
        spec_state_at(cfg, init, m, n, fr) == spec_run(
            cfg,
            spec_state_at(cfg, init, m, n, rb),
            spec_frames(m, n, fr).skip(rb),
        ),
{
    lemma_run_split(cfg, init, spec_frames(m, n, fr), rb);
    assert(spec_frames(m, n, fr).take(rb) =~= spec_frames(m, n, rb));
}

/// One more tick of frames is the old frames with the new tick's frame
/// appended.
proof fn lemma_frames_snoc(m: Map<(int, int), u8>, n: int, k: int)
    requires
        0 <= k,
    ensures
        spec_frames(m, n, k + 1) == spec_frames(m, n, k).push(spec_frame(m, n, k)),
{
    assert(spec_frames(m, n, k + 1) =~= spec_frames(m, n, k).push(spec_frame(m, n, k)));
}

/// Two confirmation maps whose best symbols agree for every participant at
/// tick `t` yield the same frame there.
proof fn lemma_frame_eq(m1: Map<(int, int), u8>, m2: Map<(int, int), u8>, n: int, t: int)
    requires
        0 <= n,
        forall|p2: int| 0 <= p2 < n ==> #[trigger] spec_best(m1, p2, t) == spec_best(m2, p2, t),
    ensures
        spec_frame(m1, n, t) == spec_frame(m2, n, t),
{
    assert forall|p2: int|
        0 <= p2 < spec_frame(m1, n, t).len() implies spec_frame(m1, n, t)[p2] == spec_frame(
        m2,
        n,
        t,
    )[p2] by {
        assert(0 <= p2 < n);
        assert(spec_best(m1, p2, t) == spec_best(m2, p2, t));
        assert(spec_frame(m1, n, t)[p2] == spec_best(m1, p2, t));
        assert(spec_frame(m2, n, t)[p2] == spec_best(m2, p2, t));
    }
    assert(spec_frame(m1, n, t) =~= spec_frame(m2, n, t));
}

/// Two confirmation maps whose frames agree for every tick below `k` yield
/// the same frame sequence up to `k`.
proof fn lemma_frames_eq(m1: Map<(int, int), u8>, m2: Map<(int, int), u8>, n: int, k: int)
    requires
        0 <= k,
        forall|tt: int| 0 <= tt < k ==> #[trigger] spec_frame(m1, n, tt) == spec_frame(m2, n, tt),
    ensures
        spec_frames(m1, n, k) == spec_frames(m2, n, k),
{
    assert forall|tt: int|
        0 <= tt < spec_frames(m1, n, k).len() implies spec_frames(m1, n, k)[tt] == spec_frames(
        m2,
        n,
        k,
    )[tt] by {
        assert(spec_frames(m1, n, k)[tt] == spec_frame(m1, n, tt));
        assert(spec_frames(m2, n, k)[tt] == spec_frame(m2, n, tt));
    }
    assert(spec_frames(m1, n, k) =~= spec_frames(m2, n, k));
}

/// Inserting a confirmation at tick `t` leaves the frames of ticks `0 .. k`
/// untouched whenever `k <= t`: only the present and the future change.
proof fn lemma_insert_frames_prefix(
    m: Map<(int, int), u8>,
    n: int,
    p: int,
    t: int,
    s: u8,
    k: int,
)
    requires
        0 <= n,
        0 <= k <= t,
    ensures
        spec_frames(m.insert((p, t), s), n, k) == spec_frames(m, n, k),
{
    let m2 = m.insert((p, t), s);
    assert forall|tt: int| 0 <= tt < k implies #[trigger] spec_frame(m2, n, tt) == spec_frame(
        m,
        n,
        tt,
    ) by {
        assert forall|p2: int|
            0 <= p2 < n implies #[trigger] spec_best(m2, p2, tt) == spec_best(m, p2, tt) by {
            lemma_insert_best_prefix(m, p, t, s, p2, tt);
        }
        lemma_frame_eq(m2, m, n, tt);
    }
    lemma_frames_eq(m2, m, n, k);
}

/// Confirming a symbol equal to the prediction that stands in for it leaves
/// every prediction untouched: the prediction already propagated that value.
proof fn lemma_insert_matching_pred(
    m: Map<(int, int), u8>,
    p: int,
    t: int,
    s: u8,
    p2: int,
    t2: int,
)
    requires
        !m.contains_key((p, t)),
        s == spec_best(m, p, t),
    ensures
        spec_pred(m.insert((p, t), s), p2, t2) == spec_pred(m, p2, t2),
    decreases t2,
{
    if t2 <= 0 {
    } else if p2 == p && t2 - 1 == t {
        assert(spec_pred(m, p, t2) == spec_pred(m, p, t));
        assert(spec_best(m, p, t) == spec_pred(m, p, t));
    } else {
        assert((p2, t2 - 1) != (p, t));
        lemma_insert_matching_pred(m, p, t, s, p2, t2 - 1);
    }
}

/// Confirming a symbol equal to its prediction leaves every best symbol, and
/// so every frame, untouched.
proof fn lemma_insert_matching_frames(m: Map<(int, int), u8>, n: int, p: int, t: int, s: u8, k: int)
    requires
        0 <= n,
        0 <= k,
        !m.contains_key((p, t)),
        s == spec_best(m, p, t),
    ensures
        spec_frames(m.insert((p, t), s), n, k) == spec_frames(m, n, k),
{
    let m2 = m.insert((p, t), s);
    assert forall|tt: int| 0 <= tt < k implies #[trigger] spec_frame(m2, n, tt) == spec_frame(
        m,
        n,
        tt,
    ) by {
        assert forall|p2: int|
            0 <= p2 < n implies #[trigger] spec_best(m2, p2, tt) == spec_best(m, p2, tt) by {
            lemma_insert_matching_pred(m, p, t, s, p2, tt);
            if p2 == p && tt == t {
            } else {
                assert((p2, tt) != (p, t));
            }
        }
        lemma_frame_eq(m2, m, n, tt);
    }
    lemma_frames_eq(m2, m, n, k);
}

/// A row of unconfirmed input slots for one tick.
fn blank_row(n: usize) -> (r: Vec<InputCell>)
    ensures
        r@.len() == n,
        forall|i: int| 0 <= i < n ==> !(#[trigger] r@[i]).confirmed,
{
    let mut r: Vec<InputCell> = Vec::new();
    let mut i: usize = 0;
    while i < n
        invariant
            i <= n,
            r@.len() == i,
            forall|j: int| 0 <= j < i ==> !(#[trigger] r@[j]).confirmed,
        decreases n - i,
    {
        r.push(InputCell { confirmed: false, symbol: 0 });
        i = i + 1;
    }
    r
}

} // verus!

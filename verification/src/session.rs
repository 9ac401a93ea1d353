//! Session lifecycle: from waiting for peers, through negotiation, to a
//! running rollback scheduler.
//!
//! The manager is fed peer join/leave events by the caller (the transport
//! adapter lives outside this crate) and is advanced once per outer tick.
//! It leaves `AwaitingPeers` only when exactly the configured number of
//! peers is present — more peers than configured is a fatal error — and
//! negotiation assigns each peer a handle equal to its discovery order,
//! checks the peer identities are distinct, and hands out the constructed
//! rollback scheduler. Session creation is one-shot: a terminated or
//! running manager never negotiates again; a second match needs a fresh
//! manager.

use vstd::prelude::*;

use crate::rollback::Scheduler;
use crate::sim::{SimConfig, PlayerPos, config_wf, state_wf};

verus! {

/// Lifecycle states of a session manager, in the order they are reached.
#[derive(Clone, Copy, Debug, PartialEq, Eq, Structural)]
pub enum LifecycleState {
    /// Collecting peer join/leave events until the quorum is exact.
    AwaitingPeers,
    /// Quorum reached; the next advance negotiates handles and starts.
    Negotiating,
    /// The match is running; ticks are delegated to the scheduler.
    Running,
    /// Unrecoverable; no further tick is processed.
    Terminated,
}

/// Fatal session-start failures. Each moves the manager to
/// [`LifecycleState::Terminated`].
#[derive(Clone, Copy, Debug, PartialEq, Eq, Structural)]
pub enum SessionError {
    /// More peers joined than the session is configured for.
    TooManyPeers,
    /// Two discovered peers carry the same identity, so handles cannot be
    /// assigned unambiguously.
    DuplicatePeer,
    /// The local peer identity is not among the discovered peers.
    LocalPeerMissing,
    /// The transport channel could not be taken at session start.
    TransportUnavailable,
}

/// Everything a match is configured with before any peer joins.
pub struct SessionConfig {
    /// Exact number of participants required, at least 2.
    pub required_players: usize,
    /// Ticks of artificial latency added to local input before it is
    /// submitted, trading latency for fewer mispredictions.
    pub input_delay: usize,
    /// Maximum rollback depth in ticks.
    pub window: usize,
    /// Parameters of the deterministic step.
    pub sim: SimConfig,
    /// Starting position of each handle, one entry per required player.
    pub initial: Vec<PlayerPos>,
}

/// A usable configuration: a real quorum, a usable step configuration, and
/// one in-bounds spawn position per participant.
pub open spec fn session_config_wf(c: SessionConfig) -> bool {
    &&& c.required_players >= 2
    &&& config_wf(c.sim)
    &&& c.initial@.len() == c.required_players as int
    &&& state_wf(c.sim, c.initial@)
}

/// Whether a peer identity sequence holds the same identity twice.
pub open spec fn has_duplicate(s: Seq<u64>) -> bool {
    exists|i: int, j: int| 0 <= i < j < s.len() && s[i] == s[j]
}

/// Index of the first occurrence of `id` in `s`, or -1 when `id` is absent.
pub open spec fn first_index_of(s: Seq<u64>, id: u64) -> int
    decreases s.len(),
{
    if s.len() == 0 {
        -1
    } else if s[0] == id {
        0
    } else if first_index_of(s.skip(1), id) < 0 {
        -1
    } else {
        1 + first_index_of(s.skip(1), id)
    }
}

/// An element preceded only by other values is the first occurrence.
proof fn lemma_first_index_at(s: Seq<u64>, id: u64, i: int)
    requires
        0 <= i < s.len(),
        s[i] == id,
        forall|a: int| 0 <= a < i ==> s[a] != id,
    ensures
        first_index_of(s, id) == i,
    decreases i,
{
    if i == 0 {
    } else {
        assert(s[0] != id);
        assert(s.skip(1)[i - 1] == id);
        assert forall|a: int| 0 <= a < i - 1 implies s.skip(1)[a] != id by {
            assert(s[a + 1] != id);
        }
        lemma_first_index_at(s.skip(1), id, i - 1);
    }
}

/// A value that occurs nowhere has no first occurrence.
proof fn lemma_first_index_absent(s: Seq<u64>, id: u64)
    requires
        forall|a: int| 0 <= a < s.len() ==> s[a] != id,
    ensures
        first_index_of(s, id) == -1,
    decreases s.len(),
{
    if s.len() == 0 {
    } else {
        assert(s[0] != id);
        assert forall|a: int| 0 <= a < s.skip(1).len() implies s.skip(1)[a] != id by {
            assert(s[a + 1] != id);
        }
        lemma_first_index_absent(s.skip(1), id);
    }
}

/// Owns the match lifecycle up to the moment the rollback scheduler exists.
pub struct SessionManager {
    state: LifecycleState,
    config: SessionConfig,
    local_peer: u64,
    peers: Vec<u64>,
}

impl SessionManager {
    /// Current lifecycle state.
    pub closed spec fn lifecycle(self) -> LifecycleState {
        self.state
    }

    /// The configuration the manager was created with.
    pub closed spec fn config_spec(self) -> SessionConfig {
        self.config
    }

    /// Identity of the local peer.
    pub closed spec fn local_peer_spec(self) -> u64 {
        self.local_peer
    }

    /// Peer identities discovered so far, in discovery order; on a
    /// successful start, a peer's handle is its index here.
    pub closed spec fn peer_list(self) -> Seq<u64> {
        self.peers@
    }

    /// Well-formedness: the configuration stays usable, and once the
    /// manager negotiates, the roster is frozen at exactly the quorum.
    pub closed spec fn wf(self) -> bool {
        &&& session_config_wf(self.config)
        &&& self.state == LifecycleState::Negotiating ==> self.peers@.len()
            == self.config.required_players as int
    }

    /// A fresh manager for one match: awaiting peers, nobody discovered.
    pub fn new(config: SessionConfig, local_peer: u64) -> (m: SessionManager)
        requires
            session_config_wf(config),
        ensures
            m.wf(),
            m.lifecycle() == LifecycleState::AwaitingPeers,
            m.config_spec() == config,
            m.local_peer_spec() == local_peer,
            m.peer_list() == Seq::<u64>::empty(),
    {
        let m = SessionManager { state: LifecycleState::AwaitingPeers, config, local_peer, peers: Vec::new() };
        proof {
            assert(m.peer_list() =~= Seq::<u64>::empty());
        }
        m
    }

    /// Current lifecycle state, for the caller's dispatch.
    pub fn state(&self) -> (s: LifecycleState)
        ensures
            s == self.lifecycle(),
    {
        self.state
    }

    /// The configured input delay in ticks, applied by the caller when it
    /// picks the tick to submit local input for.
    pub fn input_delay(&self) -> (d: usize)
        ensures
            d == self.config_spec().input_delay,
    {
        self.config.input_delay
    }

    /// The tick that local input sampled at tick `now` is submitted for:
    /// `now` shifted by the configured input delay, the artificial latency
    /// that trades responsiveness for fewer mispredictions. `None` when the
    /// shifted tick would leave the range the scheduler accepts.
    pub fn submission_tick(&self, now: usize) -> (t: Option<usize>)
        ensures
            match t {
                Some(v) => v as int == now + self.config_spec().input_delay && now
                    + self.config_spec().input_delay < usize::MAX - 1,
                None => now + self.config_spec().input_delay >= usize::MAX - 1,
            },
    {
        if now < usize::MAX - 1 && self.config.input_delay < usize::MAX - 1 - now {
            Some(now + self.config.input_delay)
        } else {
            None
        }
    }

    /// Number of peers discovered so far.
    pub fn peer_count(&self) -> (n: usize)
        ensures
            n as int == self.peer_list().len(),
    {
        self.peers.len()
    }

    /// A peer joined the room. Only collected while awaiting peers; in any
    /// later state the event is ignored, since the roster is frozen at
    /// negotiation.
    pub fn peer_joined(&mut self, id: u64)
        ensures
            old(self).wf() ==> final(self).wf(),
            final(self).lifecycle() == old(self).lifecycle(),
            final(self).config_spec() == old(self).config_spec(),
            final(self).local_peer_spec() == old(self).local_peer_spec(),
            final(self).peer_list() == if old(self).lifecycle() == LifecycleState::AwaitingPeers {
                old(self).peer_list().push(id)
            } else {
                old(self).peer_list()
            },
    {
        if matches!(self.state, LifecycleState::AwaitingPeers) {
            self.peers.push(id);
        }
    }

    /// A peer left the room. While awaiting peers, its first occurrence is
    /// removed from the roster, reopening the slot; a departed peer never
    /// counts toward the quorum again. In any later state the event is
    /// ignored here and surfaces as transport loss instead.
    pub fn peer_left(&mut self, id: u64)
        ensures
            old(self).wf() ==> final(self).wf(),
            final(self).lifecycle() == old(self).lifecycle(),
            final(self).config_spec() == old(self).config_spec(),
            final(self).local_peer_spec() == old(self).local_peer_spec(),
            final(self).peer_list() == (if old(self).lifecycle() == LifecycleState::AwaitingPeers
                && first_index_of(old(self).peer_list(), id) >= 0 {
                old(self).peer_list().remove(first_index_of(old(self).peer_list(), id))
            } else {
                old(self).peer_list()
            }),
    {
        if matches!(self.state, LifecycleState::AwaitingPeers) {
            let n = self.peers.len();
            let mut i: usize = 0;
            while i < n
                invariant
                    n == self.peers@.len(),
                    i <= n,
                    self == old(self),
                    self.state == LifecycleState::AwaitingPeers,
                    forall|a: int| 0 <= a < i ==> #[trigger] self.peers@[a] != id,
                decreases n - i,
            {
                if self.peers[i] == id {
                    proof {
                        lemma_first_index_at(self.peers@, id, i as int);
                    }
                    self.peers.remove(i);
                    return ;
                }
                i = i + 1;
            }
            proof {
                lemma_first_index_absent(self.peers@, id);
            }
        }
    }

    /// Unrecoverable transport loss: terminate from any state. No further
    /// tick is processed and the manager never starts a session.
    pub fn transport_lost(&mut self)
        ensures
            old(self).wf() ==> final(self).wf(),
            final(self).lifecycle() == LifecycleState::Terminated,
            final(self).config_spec() == old(self).config_spec(),
            final(self).local_peer_spec() == old(self).local_peer_spec(),
            final(self).peer_list() == old(self).peer_list(),
    {
        self.state = LifecycleState::Terminated;
    }

    /// Advances the lifecycle; called once per outer tick before any
    /// simulation work. While awaiting peers it moves to `Negotiating`
    /// exactly when the roster size equals the quorum — never earlier — and
    /// fails fatally when the roster has overshot it. One call later,
    /// negotiation checks that the transport channel is available (the
    /// caller passes what it observed), that peer identities are distinct,
    /// and that the local peer is among them; on success the manager is
    /// `Running` and the constructed rollback scheduler is handed out, with
    /// handles assigned by discovery order. Any failure terminates the
    /// manager: session creation is one-shot. In `Running` and `Terminated`
    /// the call does nothing.
    pub fn try_advance_lifecycle(&mut self, transport_ok: bool) -> (r: Result<
        Option<Scheduler>,
        SessionError,
    >)
        requires
            old(self).wf(),
        ensures
            final(self).wf(),
            final(self).config_spec() == old(self).config_spec(),
            final(self).local_peer_spec() == old(self).local_peer_spec(),
            final(self).peer_list() == old(self).peer_list(),
            match old(self).lifecycle() {
                LifecycleState::AwaitingPeers => {
                    if old(self).peer_list().len() == old(self).config_spec().required_players as int {
                        &&& r == Ok::<Option<Scheduler>, SessionError>(None)
                        &&& final(self).lifecycle() == LifecycleState::Negotiating
                    } else if old(self).peer_list().len() > old(
                        self,
                    ).config_spec().required_players as int {
                        &&& r == Err::<Option<Scheduler>, SessionError>(SessionError::TooManyPeers)
                        &&& final(self).lifecycle() == LifecycleState::Terminated
                    } else {
                        &&& r == Ok::<Option<Scheduler>, SessionError>(None)
                        &&& final(self).lifecycle() == LifecycleState::AwaitingPeers
                    }
                },
                LifecycleState::Negotiating => {
                    if !transport_ok {
                        &&& r == Err::<Option<Scheduler>, SessionError>(
                            SessionError::TransportUnavailable,
                        )
                        &&& final(self).lifecycle() == LifecycleState::Terminated
                    } else if has_duplicate(old(self).peer_list()) {
                        &&& r == Err::<Option<Scheduler>, SessionError>(SessionError::DuplicatePeer)
                        &&& final(self).lifecycle() == LifecycleState::Terminated
                    } else if !old(self).peer_list().contains(old(self).local_peer_spec()) {
                        &&& r == Err::<Option<Scheduler>, SessionError>(
                            SessionError::LocalPeerMissing,
                        )
                        &&& final(self).lifecycle() == LifecycleState::Terminated
                    } else {
                        &&& final(self).lifecycle() == LifecycleState::Running
                        &&& match r {
                            Ok(Some(sched)) => {
                                &&& sched.wf()
                                &&& sched.cfg_spec() == old(self).config_spec().sim
                                &&& sched.players() == old(self).peer_list().len()
                                &&& sched.initial_spec() == old(self).config_spec().initial@
                                &&& sched.window_spec() == old(self).config_spec().window as int
                                &&& sched.frontier_spec() == 0
                                &&& sched.pending() is None
                                &&& sched.confirmed() == Map::<(int, int), u8>::empty()
                                &&& 0 <= sched.local() < old(self).peer_list().len()
                                &&& old(self).peer_list()[sched.local()] == old(
                                    self,
                                ).local_peer_spec()
                            },
                            _ => false,
                        }
                    }
                },
                LifecycleState::Running => {
                    r == Ok::<Option<Scheduler>, SessionError>(None) && final(self).lifecycle()
                        == LifecycleState::Running
                },
                LifecycleState::Terminated => {
                    r == Ok::<Option<Scheduler>, SessionError>(None) && final(self).lifecycle()
                        == LifecycleState::Terminated
                },
            },
    {
        match self.state {
            LifecycleState::AwaitingPeers => {
                if self.peers.len() == self.config.required_players {
                    self.state = LifecycleState::Negotiating;
                    Ok(None)
                } else if self.peers.len() > self.config.required_players {
                    self.state = LifecycleState::Terminated;
                    Err(SessionError::TooManyPeers)
                } else {
                    Ok(None)
                }
            },
            LifecycleState::Negotiating => {
                if !transport_ok {
                    self.state = LifecycleState::Terminated;
                    return Err(SessionError::TransportUnavailable);
                }
                if self.find_duplicate() {
                    self.state = LifecycleState::Terminated;
                    return Err(SessionError::DuplicatePeer);
                }
                let local = match self.find_local() {
                    Some(idx) => idx,
                    None => {
                        self.state = LifecycleState::Terminated;
                        return Err(SessionError::LocalPeerMissing);
                    },
                };
                let initial = crate::sim::copy_state(&self.config.initial);
                let sched = Scheduler::new(self.config.sim, initial, local, self.config.window);
                self.state = LifecycleState::Running;
                Ok(Some(sched))
            },
            LifecycleState::Running => Ok(None),
            LifecycleState::Terminated => Ok(None),
        }
    }

    /// Whether the roster holds the same peer identity twice.
    fn find_duplicate(&self) -> (b: bool)
        ensures
            b == has_duplicate(self.peer_list()),
    {
        let n = self.peers.len();
        let mut i: usize = 0;
        while i < n
            invariant
                n == self.peers@.len(),
                i <= n,
                forall|a: int, b: int|
                    #![trigger self.peers@[a], self.peers@[b]]
                    0 <= a < b < n && a < i ==> self.peers@[a] != self.peers@[b],
            decreases n - i,
        {
            let mut j: usize = i + 1;
            while j < n
                invariant
                    n == self.peers@.len(),
                    i < j || i + 1 == j,
                    i < n,
                    i + 1 <= j <= n,
                    forall|b: int| i < b < j ==> self.peers@[i as int] != #[trigger] self.peers@[b],
                    forall|a: int, b: int|
                        #![trigger self.peers@[a], self.peers@[b]]
                        0 <= a < b < n && a < i ==> self.peers@[a] != self.peers@[b],
                decreases n - j,
            {
                if self.peers[i] == self.peers[j] {
                    return true;
                }
                j = j + 1;
            }
            i = i + 1;
        }
        false
    }

    /// Index of the local peer in the roster, i.e. the local handle.
    fn find_local(&self) -> (r: Option<usize>)
        ensures
            match r {
                Some(idx) => idx < self.peer_list().len() && self.peer_list()[idx as int]
                    == self.local_peer_spec(),
                None => !self.peer_list().contains(self.local_peer_spec()),
            },
    {
        let n = self.peers.len();
        let mut i: usize = 0;
        while i < n
            invariant
                n == self.peers@.len(),
                i <= n,
                forall|a: int| 0 <= a < i ==> #[trigger] self.peers@[a] != self.local_peer,
            decreases n - i,
        {
            if self.peers[i] == self.local_peer {
                return Some(i);
            }
            i = i + 1;
        }
        None
    }
}

} // verus!

//! The executable peer-to-peer session.
//!
//! A session binds one local and one remote player, simulates one frame per
//! tick ahead of what the network has confirmed, and corrects itself when a
//! confirmed input differs from what it had predicted. It does no I/O: the
//! host hands it the bytes that arrived and sends the messages it returns.

use vstd::prelude::*;
use crate::input::PlayerInputFrame;
use crate::model::{
    first_gap, lemma_first_gap, lemma_first_gap_is, BackrollConfig, Phase, Received, SessionView,
    Tick, START_FRAME,
};
use crate::player::{Frame, GameInput, Player, PlayerHandle, PlayerKind, SessionError, MAX_PLAYERS};
use crate::ring::Ring;
use crate::snapshot::{
    lemma_lookup_absent, lemma_lookup_index, lemma_older_than, older_than, saved, Snapshot,
    SnapshotStore,
};
use crate::state::{player_movement, GameState};
use crate::timeline::Timeline;
use crate::wire::{decode, Message, MessageKind};

verus! {

/// What the session keeps of a simulated frame: the inputs it used.
#[derive(Clone, Copy)]
struct FrameRecord {
    local: PlayerInputFrame,
    remote: PlayerInputFrame,
    confirmed: bool,
}

/// How many of the players are local.
pub open spec fn local_count(players: Seq<PlayerKind>) -> nat
    decreases players.len(),
{
    if players.len() == 0 {
        0
    } else {
        local_count(players.drop_last()) + if players.last() is Local {
            1nat
        } else {
            0nat
        }
    }
}

/// Whether a session can be started with the given players, and if so, in
/// which slot the local player sits.
pub open spec fn start_check(players: Seq<PlayerKind>) -> Result<PlayerHandle, SessionError> {
    if players.len() > MAX_PLAYERS {
        Err(SessionError::TooManyPlayers)
    } else if local_count(players) == 0 {
        Err(SessionError::NoLocalPlayer)
    } else if local_count(players) > 1 {
        Err(SessionError::MultipleLocalPlayers)
    } else if players.len() < MAX_PLAYERS {
        Err(SessionError::NoRemotePlayer)
    } else if players[0] is Local {
        Ok(PlayerHandle(0))
    } else {
        Ok(PlayerHandle(1))
    }
}

/// The other slot of a two-player session.
pub open spec fn other_slot(handle: PlayerHandle) -> PlayerHandle {
    if handle.0 == 0 {
        PlayerHandle(1)
    } else {
        PlayerHandle(0)
    }
}

/// Collects the players of a session before it starts.
pub struct P2PSessionBuilder {
    players: Vec<PlayerKind>,
    config: BackrollConfig,
}

impl P2PSessionBuilder {
    /// The players registered so far, in the order of their handles.
    pub closed spec fn players(&self) -> Seq<PlayerKind> {
        self.players@
    }

    /// The settings that the session will start with.
    pub closed spec fn config(&self) -> BackrollConfig {
        self.config
    }

    /// A builder without players, with the default settings.
    pub fn new() -> (r: Self)
        ensures
            r.players() == Seq::<PlayerKind>::empty(),
            r.config().max_rollback == 8,
            r.config().timeout_ticks == 300,
            r.config().default_input@ == 0,
            r.config().ticks_per_second == 60,
    {
        P2PSessionBuilder { players: Vec::new(), config: BackrollConfig::default() }
    }

    /// Replaces the settings.
    pub fn with_config(self, config: BackrollConfig) -> (r: Self)
        ensures
            r.players() == self.players(),
            r.config() == config,
    {
        P2PSessionBuilder { players: self.players, config }
    }

    /// Registers a player and returns its handle: the number of players
    /// registered before it. Fails, and registers nothing, if the session
    /// already has all the players it supports.
    pub fn add_player(&mut self, kind: PlayerKind) -> (r: Result<PlayerHandle, SessionError>)
        ensures
            final(self).config() == old(self).config(),
            old(self).players().len() < MAX_PLAYERS ==> r == Ok::<PlayerHandle, SessionError>(
                PlayerHandle(old(self).players().len() as u8),
            ) && final(self).players() == old(self).players().push(kind),
            old(self).players().len() >= MAX_PLAYERS ==> r == Err::<PlayerHandle, SessionError>(
                SessionError::TooManyPlayers,
            ) && final(self).players() == old(self).players(),
    {
        let count: usize = self.players.len();
        if count >= MAX_PLAYERS {
            return Err(SessionError::TooManyPlayers);
        }
        self.players.push(kind);
        Ok(PlayerHandle(count as u8))
    }

    /// Starts the session: it begins the handshake at the starting frame.
    ///
    /// Fails unless exactly one local and one remote player are registered.
    pub fn start(self) -> (r: Result<P2PSession, SessionError>)
        ensures
            match start_check(self.players()) {
                Ok(local) => r is Ok && r.unwrap().wf() && r.unwrap()@ == SessionView::initial(
                    self.config(),
                    local,
                    other_slot(local),
                ),
                Err(e) => r == Err::<P2PSession, SessionError>(e),
            },
    {
        let count: usize = self.players.len();
        if count > MAX_PLAYERS {
            return Err(SessionError::TooManyPlayers);
        }
        let first_local: bool = count >= 1 && is_local(self.players[0]);
        let second_local: bool = count >= 2 && is_local(self.players[1]);
        proof {
            reveal_with_fuel(local_count, 3);
            let p = self.players@;
            if count == 2 {
                assert(p.drop_last().drop_last().len() == 0);
                assert(p.drop_last().last() == p[0]);
            }
        }
        if !first_local && !second_local {
            return Err(SessionError::NoLocalPlayer);
        }
        if first_local && second_local {
            return Err(SessionError::MultipleLocalPlayers);
        }
        if count < MAX_PLAYERS {
            return Err(SessionError::NoRemotePlayer);
        }
        let local = if first_local {
            PlayerHandle(0)
        } else {
            PlayerHandle(1)
        };
        let remote = if first_local {
            PlayerHandle(1)
        } else {
            PlayerHandle(0)
        };
        Ok(P2PSession::new(self.config, local, remote))
    }
}

fn is_local(kind: PlayerKind) -> (r: bool)
    ensures
        r == (kind is Local),
{
    match kind {
        PlayerKind::Local => true,
        PlayerKind::Remote => false,
    }
}

/// The first `upto - w + 1` snapshots are those of the frames `w` to
/// `upto` on the timeline.
spec fn snapshots_track(snaps: Seq<Snapshot>, t: Timeline, w: int, upto: int) -> bool {
    &&& snaps.len() >= upto - w + 1
    &&& forall|i: int|
        0 <= i <= upto - w ==> (#[trigger] snaps[i]).frame == w + i && snaps[i].state
            == t.state_at(w + i)
}

/// The records are those of the frames `w` to `n - 1`; the remote inputs of
/// the frames before `done` are the ones that the timeline gives.
spec fn records_track(recs: Seq<FrameRecord>, t: Timeline, w: int, n: int, done: int) -> bool {
    &&& recs.len() == n - w
    &&& forall|i: int|
        0 <= i < recs.len() ==> {
            &&& (#[trigger] recs[i]).local == t.local[w + i]
            &&& recs[i].confirmed == t.confirmed.contains_key(w + i)
            &&& (recs[i].confirmed ==> recs[i].remote == t.confirmed[w + i])
            &&& (w + i < done ==> recs[i].remote == t.remote_at(w + i))
        }
}

/// The pending inputs are the confirmed inputs of the frames from `n` on.
spec fn pending_tracks(pending: Seq<Option<PlayerInputFrame>>, t: Timeline, n: int) -> bool {
    &&& forall|i: int|
        0 <= i < pending.len() ==> (#[trigger] pending[i]) == (if t.confirmed.contains_key(n + i) {
            Some(t.confirmed[n + i])
        } else {
            None
        })
    &&& forall|f: int| f >= n + pending.len() ==> !(#[trigger] t.confirmed.contains_key(f))
}

/// A peer-to-peer session of two players.
pub struct P2PSession {
    config: BackrollConfig,
    local: PlayerHandle,
    remote: PlayerHandle,
    phase: Phase,
    frame: Frame,
    silent: u32,
    state: GameState,
    prev_remote: PlayerInputFrame,
    snapshots: SnapshotStore,
    records: Ring<FrameRecord>,
    pending: Ring<Option<PlayerInputFrame>>,
    confirmed_through: u64,
    timeline: Ghost<Timeline>,
}

impl View for P2PSession {
    type V = SessionView;

    closed spec fn view(&self) -> SessionView {
        SessionView {
            config: self.config,
            local: self.local,
            remote: self.remote,
            phase: self.phase,
            frame: self.frame as int,
            silent: self.silent as int,
            timeline: self.timeline@,
        }
    }
}

impl P2PSession {
    /// The session is consistent: its live state, its snapshots and the
    /// inputs it keeps are those that its timeline gives.
    pub closed spec fn wf(&self) -> bool {
        &&& self.tracks_timeline()
        &&& self.confirmed_through == self@.confirmed_through()
    }

    /// All of `wf` but the count of the confirmed frames.
    spec fn tracks_timeline(&self) -> bool {
        let t = self.timeline@;
        let n = self.frame as int;
        let w = self@.oldest();
        let cap = self.config.max_rollback + 1;
        &&& self.local.0 < MAX_PLAYERS
        &&& self.remote == other_slot(self.local)
        &&& t.local_first == (self.local.0 == 0)
        &&& t.default_input == self.config.default_input
        &&& t.local.len() == n
        &&& (self.phase is Synchronizing ==> n == 0)
        &&& self.state == t.state_at(n)
        &&& self.prev_remote == t.remote_at(n - 1)
        &&& self.snapshots.wf()
        &&& self.snapshots.spec_capacity() == cap
        &&& self.snapshots@.len() == n - w + 1
        &&& snapshots_track(self.snapshots@, t, w, n)
        &&& self.records.wf()
        &&& self.records.spec_capacity() == cap
        &&& records_track(self.records@, t, w, n, n)
        &&& self.pending.wf()
        &&& self.pending.spec_capacity() == cap
        &&& pending_tracks(self.pending@, t, n)
        &&& n + self.pending@.len() <= Frame::MAX + 1
    }

    /// What a consistent session guarantees of its view.
    pub proof fn lemma_wf(&self)
        requires
            self.wf(),
        ensures
            0 <= self@.frame <= Frame::MAX,
            0 <= self@.silent <= u32::MAX,
            self@.timeline.local.len() == self@.frame,
            self@.timeline.local_first == (self@.local.0 == 0),
            self@.timeline.default_input == self@.config.default_input,
            self@.local.0 < MAX_PLAYERS,
            self@.remote == other_slot(self@.local),
            self@.phase is Synchronizing ==> self@.frame == 0,
    {
    }

    /// A builder for a session.
    pub fn build() -> (r: P2PSessionBuilder)
        ensures
            r.players() == Seq::<PlayerKind>::empty(),
            r.config().max_rollback == 8,
            r.config().timeout_ticks == 300,
            r.config().default_input@ == 0,
            r.config().ticks_per_second == 60,
    {
        P2PSessionBuilder::new()
    }

    fn new(config: BackrollConfig, local: PlayerHandle, remote: PlayerHandle) -> (r: Self)
        requires
            local.0 < MAX_PLAYERS,
            remote == other_slot(local),
        ensures
            r.wf(),
            r@ == SessionView::initial(config, local, remote),
    {
        let capacity: usize = config.max_rollback as usize + 1;
        let state = GameState::new();
        let mut snapshots = SnapshotStore::new(capacity);
        snapshots.save(START_FRAME, &state);
        let blank = FrameRecord {
            local: config.default_input,
            remote: config.default_input,
            confirmed: false,
        };
        let ghost t = Timeline {
            local_first: local.0 == 0,
            default_input: config.default_input,
            local: Seq::empty(),
            confirmed: Map::empty(),
        };
        let r = P2PSession {
            config,
            local,
            remote,
            phase: Phase::Synchronizing,
            frame: START_FRAME,
            silent: 0,
            state,
            prev_remote: config.default_input,
            snapshots,
            records: Ring::new(capacity, blank),
            pending: Ring::new(capacity, None),
            confirmed_through: 0,
            timeline: Ghost(t),
        };
        proof {
            assert(t.inputs(0) =~= Seq::<GameInput>::empty());
            assert(r@ =~= SessionView::initial(config, local, remote));
        }
        r
    }

    /// Where the session stands in its life.
    pub fn phase(&self) -> (r: Phase)
        ensures
            r == self@.phase,
    {
        self.phase
    }

    /// The current frame: the number of frames simulated so far.
    pub fn current_frame(&self) -> (r: Frame)
        ensures
            r == self@.frame,
    {
        self.frame
    }

    /// The state of the simulation at the current frame.
    pub fn state(&self) -> (r: GameState)
        requires
            self.wf(),
        ensures
            r == self@.state(),
    {
        self.state
    }

    /// The snapshot that the session retains of `frame`: the state at the
    /// start of that frame. The session retains the snapshots of the
    /// current frame and of as many frames before it as it can roll back.
    pub fn saved_state(&self, frame: Frame) -> (r: Option<GameState>)
        requires
            self.wf(),
        ensures
            r == if self@.oldest() <= frame <= self@.frame {
                Some(self@.timeline.state_at(frame as int))
            } else {
                None
            },
    {
        proof {
            let snaps = self.snapshots@;
            let w = self@.oldest();
            self.snapshots.lemma_wf();
            if w <= frame <= self.frame {
                assert(snaps[frame - w].frame == frame);
                lemma_lookup_index(snaps, frame - w);
            } else {
                assert forall|i: int| 0 <= i < snaps.len() implies snaps[i].frame != frame by {
                    assert(snaps[i].frame == w + i);
                }
                lemma_lookup_absent(snaps, frame as int);
            }
        }
        self.snapshots.load(frame)
    }

    /// The number of frames from frame 0 on whose remote inputs are all
    /// confirmed.
    pub fn confirmed_through(&self) -> (r: u64)
        requires
            self.wf(),
        ensures
            r == self@.confirmed_through(),
    {
        self.confirmed_through
    }

    /// The local player.
    pub fn local_player(&self) -> (r: Player)
        ensures
            r.handle == self@.local,
    {
        Player { handle: self.local }
    }

    /// The remote player.
    pub fn remote_player(&self) -> (r: Player)
        ensures
            r.handle == self@.remote,
    {
        Player { handle: self.remote }
    }

    /// The settings that the session was started with.
    pub fn config(&self) -> (r: BackrollConfig)
        ensures
            r == self@.config,
    {
        self.config
    }

    fn arrange(&self, frame: Frame, local: PlayerInputFrame, remote: PlayerInputFrame) -> (r:
        GameInput)
        ensures
            r.frame == frame,
            r.first == if self.local.0 == 0 {
                local
            } else {
                remote
            },
            r.second == if self.local.0 == 0 {
                remote
            } else {
                local
            },
    {
        if self.local.0 == 0 {
            GameInput { frame, first: local, second: remote }
        } else {
            GameInput { frame, first: remote, second: local }
        }
    }

    /// The oldest frame that the session can still roll back to: the
    /// frame of its oldest snapshot.
    pub fn oldest_frame(&self) -> (r: Frame)
        ensures
            r == self@.oldest(),
    {
        let reach: u32 = self.config.max_rollback as u32;
        if self.frame > reach {
            self.frame - reach
        } else {
            0
        }
    }
}

impl P2PSession {
    /// Ends the session: for the host that closes it, and for the
    /// transport that reports the peer unreachable. Nothing is simulated
    /// afterwards, and what was simulated stays as it is.
    pub fn disconnect(&mut self)
        requires
            old(self).wf(),
        ensures
            final(self).wf(),
            final(self)@ == old(self)@.disconnect(),
    {
        self.phase = Phase::Disconnected;
        proof {
            assert(self@ =~= old(self)@.disconnect());
        }
    }

    /// Ticks the session once with the local input of this tick.
    ///
    /// While the handshake is under way the tick simulates nothing and
    /// returns the handshake message. A running session that has not heard
    /// from its peer for the configured number of ticks disconnects.
    /// Otherwise the tick simulates exactly one frame, with the given local
    /// input and the confirmed or else predicted remote input, saves a
    /// snapshot of the new state, and returns the inputs it used together
    /// with the message that carries the local input to the peer. The
    /// frame counter must have room for one more frame.
    pub fn advance_frame(&mut self, input: PlayerInputFrame) -> (r: Tick)
        requires
            old(self).wf(),
            old(self)@.phase is Running ==> old(self)@.frame < Frame::MAX,
        ensures
            final(self).wf(),
            (final(self)@, r) == old(self)@.advance(input),
    {
        match self.phase {
            Phase::Synchronizing => {
                return Tick::Handshake {
                    message: Message {
                        kind: MessageKind::Sync,
                        player: self.local,
                        frame: START_FRAME,
                        input: self.config.default_input,
                    },
                };
            },
            Phase::Disconnected => {
                return Tick::Closed;
            },
            Phase::Running => {},
        }
        if self.silent >= self.config.timeout_ticks {
            self.disconnect();
            return Tick::TimedOut;
        }
        self.step_forward(input)
    }

    fn step_forward(&mut self, input: PlayerInputFrame) -> (r: Tick)
        requires
            old(self).wf(),
            old(self).phase is Running,
            old(self).frame < Frame::MAX,
            old(self).silent < old(self).config.timeout_ticks,
        ensures
            final(self).wf(),
            (final(self)@, r) == old(self)@.advance(input),
    {
        let n: Frame = self.frame;
        let ghost w = self@.oldest();
        let ghost t0 = self.timeline@;
        let ghost t1 = t0.extend(input);
        let ghost snaps0 = self.snapshots@;
        let ghost recs0 = self.records@;
        let ghost pend0 = self.pending@;
        proof {
            self.pending.lemma_bounded();
        }
        // The remote input of this frame: confirmed ahead of time, or else
        // the one of the frame before once more.
        let mut remote = self.prev_remote;
        let mut confirmed = false;
        if self.pending.len() > 0 {
            let head = self.pending.pop_front();
            assert(head == pend0[0]);
            match head {
                Some(v) => {
                    remote = v;
                    confirmed = true;
                },
                None => {},
            }
        }
        proof {
            assert(confirmed == t0.confirmed.contains_key(n as int));
            assert(remote == t0.remote_at(n as int));
            t0.lemma_extend_keeps_all(input);
            t1.lemma_state_step(n as int);
            self.snapshots.lemma_wf();
            self.records.lemma_bounded();
            self.pending.lemma_bounded();
        }
        let inputs = self.arrange(n, input, remote);
        assert(inputs == t1.inputs_at(n as int));
        player_movement(&mut self.state, &inputs);
        // Where the history is full, its oldest frame leaves: its record
        // here, its snapshot when the new one is saved.
        if self.config.max_rollback > 0 {
            if self.records.len() == self.config.max_rollback as usize {
                self.records.pop_front();
            }
            self.records.push_back(FrameRecord { local: input, remote, confirmed });
        }
        let now = self.state;
        self.snapshots.save(n + 1, &now);
        self.prev_remote = remote;
        self.frame = n + 1;
        self.silent = self.silent + 1;
        self.timeline = Ghost(t1);
        proof {
            // Every retained snapshot is older than the new one, so none is
            // superseded; what is kept is shifted by one where the oldest left.
            let cap = (self.config.max_rollback + 1) as nat;
            let snap = Snapshot { frame: (n + 1) as u32, state: now };
            assert(snaps0[snaps0.len() - 1].frame == n);
            assert(self.snapshots@ == saved(snaps0, cap, snap));
            let w1 = self@.oldest();
            let snaps1 = self.snapshots@;
            assert forall|i: int| 0 <= i <= n + 1 - w1 implies (#[trigger] snaps1[i]).frame == w1
                + i && snaps1[i].state == t1.state_at(w1 + i) by {
                if w1 + i <= n {
                    assert(snaps1[i] == snaps0[w1 + i - w]);
                }
            }
            let recs1 = self.records@;
            assert forall|i: int| 0 <= i < recs1.len() implies {
                &&& (#[trigger] recs1[i]).local == t1.local[w1 + i]
                &&& recs1[i].confirmed == t1.confirmed.contains_key(w1 + i)
                &&& (recs1[i].confirmed ==> recs1[i].remote == t1.confirmed[w1 + i])
                &&& recs1[i].remote == t1.remote_at(w1 + i)
            } by {
                if w1 + i < n {
                    assert(recs1[i] == recs0[w1 + i - w]);
                }
            }
            let pend1 = self.pending@;
            assert forall|i: int| 0 <= i < pend1.len() implies (#[trigger] pend1[i]) == (
            if t1.confirmed.contains_key(n + 1 + i) {
                Some(t1.confirmed[n + 1 + i])
            } else {
                None
            }) by {
                assert(pend1[i] == pend0[i + 1]);
            }
            assert(self@ =~= old(self)@.advance(input).0);
            // No frame is confirmed that far ahead, so the count of the
            // confirmed frames is the same under the new limit.
            lemma_first_gap(t0.confirmed, 0, n + cap);
            assert(!t0.confirmed.contains_key(n + cap));
            lemma_first_gap_is(t1.confirmed, 0, n + 1 + cap, self.confirmed_through as int);
        }
        Tick::Advanced {
            inputs,
            message: Message { kind: MessageKind::Input, player: self.local, frame: n, input },
        }
    }
}

impl P2PSession {
    /// Takes in bytes that arrived from the network.
    ///
    /// Bytes that are no message, and messages that speak of any player
    /// but the remote one, are dropped and change nothing. Any message from
    /// the remote player shows that the peer is alive. A handshake that
    /// proposes the starting frame, or an input, ends the handshake. An
    /// input is taken as the final remote input of its frame, once; a
    /// second input for the same frame is dropped. Where the frame was
    /// simulated with another input, the session restores the snapshot of
    /// that frame and replays up to the current frame. Where the frame is
    /// older than the oldest snapshot, the input is dropped if the inputs
    /// of all frames up to it are known to be confirmed; if not, the
    /// session can no longer correct the frame, and ends.
    pub fn receive(&mut self, bytes: &[u8]) -> (r: Received)
        requires
            old(self).wf(),
        ensures
            final(self).wf(),
            (final(self)@, r) == old(self)@.receive(bytes@),
    {
        match decode(bytes) {
            Err(e) => Received::Malformed(e),
            Ok(m) => self.receive_message(&m),
        }
    }

    /// Takes in a message that arrived from the network; see `receive`.
    pub fn receive_message(&mut self, m: &Message) -> (r: Received)
        requires
            old(self).wf(),
        ensures
            final(self).wf(),
            (final(self)@, r) == old(self)@.receive_message(*m),
    {
        if m.player != self.remote {
            return Received::UnknownPlayer(m.player);
        }
        match self.phase {
            Phase::Disconnected => {
                return Received::Closed;
            },
            Phase::Running => {
                self.silent = 0;
                proof {
                    assert(self@ =~= SessionView { silent: 0, ..old(self)@ });
                    assert(self@ =~= old(self)@.heard());
                }
                match m.kind {
                    MessageKind::Sync => Received::Heard,
                    MessageKind::Input => self.confirm(m.frame, m.input),
                }
            },
            Phase::Synchronizing => {
                match m.kind {
                    MessageKind::Sync => {
                        if m.frame == START_FRAME {
                            self.phase = Phase::Running;
                            self.silent = 0;
                            proof {
                                assert(self@ =~= old(self)@.heard());
                            }
                            Received::Synchronized
                        } else {
                            Received::StartMismatch
                        }
                    },
                    MessageKind::Input => {
                        self.phase = Phase::Running;
                        self.silent = 0;
                        proof {
                            assert(self@ =~= old(self)@.heard());
                        }
                        self.confirm(m.frame, m.input)
                    },
                }
            },
        }
    }

    fn confirm(&mut self, f: Frame, input: PlayerInputFrame) -> (r: Received)
        requires
            old(self).wf(),
            old(self).phase is Running,
        ensures
            final(self).wf(),
            (final(self)@, r) == old(self)@.confirm_input(f as int, input),
    {
        let n: Frame = self.frame;
        let w: Frame = self.oldest_frame();
        if f < w {
            if (f as u64) < self.confirmed_through {
                return Received::Duplicate;
            }
            self.disconnect();
            return Received::Desynchronized { frame: f };
        }
        let ghost before = self.timeline@.confirmed;
        let r = if f >= n {
            self.buffer(f, input)
        } else {
            self.correct(f, input)
        };
        match r {
            Received::Buffered | Received::Confirmed | Received::RolledBack { .. } => {
                self.count_confirmed(Ghost(before), f);
            },
            _ => {},
        }
        r
    }

    /// Moves the count of the confirmed frames on after the input of frame
    /// `f` has been confirmed.
    fn count_confirmed(&mut self, Ghost(before): Ghost<Map<int, PlayerInputFrame>>, f: Frame)
        requires
            old(self).tracks_timeline(),
            old(self)@.oldest() <= f < old(self).frame + old(self).pending@.len(),
            !before.contains_key(f as int),
            old(self).timeline@.confirmed.contains_key(f as int),
            forall|g: int| g != f ==> old(self).timeline@.confirmed.contains_key(g)
                == before.contains_key(g),
            old(self).confirmed_through == first_gap(
                before,
                0,
                old(self).frame + old(self).config.max_rollback + 1,
            ),
        ensures
            final(self).wf(),
            final(self)@ == old(self)@,
    {
        let ghost after = self.timeline@.confirmed;
        let ghost limit = self.frame + self.config.max_rollback + 1;
        let n: Frame = self.frame;
        let w: Frame = self.oldest_frame();
        proof {
            self.pending.lemma_bounded();
            lemma_first_gap(before, 0, limit);
        }
        assert forall|g: int| 0 <= g < self.confirmed_through implies after.contains_key(g) by {
            assert(before.contains_key(g));
        }
        if self.confirmed_through != f as u64 {
            proof {
                // The first unconfirmed frame lies before `f` and is still
                // unconfirmed.
                assert(self.confirmed_through < f);
                assert(!before.contains_key(self.confirmed_through as int));
                lemma_first_gap_is(after, 0, limit, self.confirmed_through as int);
            }
            return ;
        }
        let end: u64 = n as u64 + self.pending.len() as u64;
        let mut gap: u64 = f as u64 + 1;
        while gap < end
            invariant
                self.tracks_timeline(),
                self.timeline@.confirmed == after,
                *self == *old(self),
                n == self.frame,
                w == self@.oldest(),
                end == n + self.pending@.len(),
                w <= f,
                f < gap <= end,
                forall|g: int| 0 <= g < gap ==> after.contains_key(g),
            ensures
                f < gap <= end,
                forall|g: int| 0 <= g < gap ==> after.contains_key(g),
                gap < end ==> !after.contains_key(gap as int),
            decreases end - gap,
        {
            let frame: Frame = gap as Frame;
            let confirmed: bool = if frame < n {
                self.records.get((frame - w) as usize).confirmed
            } else {
                self.pending.get((frame - n) as usize).is_some()
            };
            if !confirmed {
                break ;
            }
            gap = gap + 1;
        }
        self.confirmed_through = gap;
        proof {
            lemma_first_gap_is(after, 0, limit, gap as int);
            assert(self@ =~= old(self)@);
        }
    }

    /// Takes in the input of a frame that was simulated and is still in
    /// the history.
    fn correct(&mut self, f: Frame, input: PlayerInputFrame) -> (r: Received)
        requires
            old(self).wf(),
            old(self).phase is Running,
            old(self)@.oldest() <= f < old(self).frame,
        ensures
            final(self).tracks_timeline(),
            final(self).confirmed_through == old(self).confirmed_through,
            (final(self)@, r) == old(self)@.confirm_input(f as int, input),
    {
        let w: Frame = self.oldest_frame();
        let at: usize = (f - w) as usize;
        let rec = self.records.get(at);
        if rec.confirmed {
            return Received::Duplicate;
        }
        if input == rec.remote {
            // The prediction was right: the frame is marked as confirmed,
            // and no input of any frame changes.
            let ghost t0 = self.timeline@;
            let ghost t1 = t0.confirm(f as int, input);
            let ghost recs0 = self.records@;
            self.records.set(at, FrameRecord { local: rec.local, remote: rec.remote, confirmed: true });
            self.timeline = Ghost(t1);
            proof {
                t0.lemma_confirm_matching_keeps_all(f as int, input);
                let recs1 = self.records@;
                assert forall|i: int| 0 <= i < recs1.len() implies {
                    &&& (#[trigger] recs1[i]).local == t1.local[w + i]
                    &&& recs1[i].confirmed == t1.confirmed.contains_key(w + i)
                    &&& (recs1[i].confirmed ==> recs1[i].remote == t1.confirmed[w + i])
                    &&& recs1[i].remote == t1.remote_at(w + i)
                } by {
                    if i != at {
                        assert(recs1[i] == recs0[i]);
                    }
                }
                assert(self@ =~= old(self)@.confirm_input(f as int, input).0);
            }
            return Received::Confirmed;
        }
        self.rollback(f, input);
        Received::RolledBack { frame: f }
    }

    /// Takes in the input of a frame that is yet to be simulated.
    fn buffer(&mut self, f: Frame, input: PlayerInputFrame) -> (r: Received)
        requires
            old(self).wf(),
            old(self).phase is Running,
            f >= old(self).frame,
        ensures
            final(self).tracks_timeline(),
            final(self).confirmed_through == old(self).confirmed_through,
            (final(self)@, r) == old(self)@.confirm_input(f as int, input),
            r is Buffered ==> f < final(self).frame + final(self).pending@.len(),
    {
        let n: Frame = self.frame;
        let ahead: u32 = f - n;
        let ghost t0 = self.timeline@;
        if ahead > self.config.max_rollback as u32 {
            proof {
                self.pending.lemma_bounded();
                assert(!t0.confirmed.contains_key(f as int));
            }
            return Received::TooFarAhead;
        }
        // Frames between the last pending one and this one are pending
        // without an input.
        let at: usize = ahead as usize;
        while self.pending.len() <= at
            invariant
                self.frame == n,
                self.config == old(self).config,
                self.local == old(self).local,
                self.remote == old(self).remote,
                self.phase == old(self).phase,
                self.silent == old(self).silent,
                self.state == old(self).state,
                self.prev_remote == old(self).prev_remote,
                self.snapshots == old(self).snapshots,
                self.records == old(self).records,
                self.confirmed_through == old(self).confirmed_through,
                self.timeline@ == t0,
                self.pending.wf(),
                n + at == f,
                n + self.pending@.len() <= Frame::MAX + 1,
                self.pending.spec_capacity() == self.config.max_rollback + 1,
                pending_tracks(self.pending@, t0, n as int),
                at <= self.config.max_rollback,
            decreases at + 1 - self.pending@.len(),
        {
            let ghost before = self.pending@;
            self.pending.push_back(None);
            proof {
                let after = self.pending@;
                assert forall|i: int| 0 <= i < after.len() implies (#[trigger] after[i]) == (
                if t0.confirmed.contains_key(n + i) {
                    Some(t0.confirmed[n + i])
                } else {
                    None
                }) by {
                    if i < before.len() {
                        assert(after[i] == before[i]);
                    }
                }
            }
        }
        match self.pending.get(at) {
            Some(_) => Received::Duplicate,
            None => {
                let ghost pend0 = self.pending@;
                let ghost t1 = t0.confirm(f as int, input);
                self.pending.set(at, Some(input));
                self.timeline = Ghost(t1);
                proof {
                    t0.lemma_confirm_keeps_before(f as int, input);
                    let pend1 = self.pending@;
                    assert forall|i: int| 0 <= i < pend1.len() implies (#[trigger] pend1[i]) == (
                    if t1.confirmed.contains_key(n + i) {
                        Some(t1.confirmed[n + i])
                    } else {
                        None
                    }) by {
                        if i != at {
                            assert(pend1[i] == pend0[i]);
                        }
                    }
                    assert(self@ =~= old(self)@.confirm_input(f as int, input).0);
                }
                Received::Buffered
            },
        }
    }

    fn rollback(&mut self, f: Frame, input: PlayerInputFrame)
        requires
            old(self).wf(),
            old(self).phase is Running,
            old(self)@.oldest() <= f < old(self).frame,
            !old(self)@.timeline.confirmed.contains_key(f as int),
        ensures
            final(self).tracks_timeline(),
            final(self).confirmed_through == old(self).confirmed_through,
            final(self)@ == (SessionView {
                timeline: old(self)@.timeline.confirm(f as int, input),
                ..old(self)@
            }),
    {
        let n: Frame = self.frame;
        let w: Frame = self.oldest_frame();
        let ghost t0 = self.timeline@;
        let ghost t1 = t0.confirm(f as int, input);
        let ghost snaps0 = self.snapshots@;
        let ghost recs0 = self.records@;
        // Record the confirmation, restore the state at the start of the
        // frame, and replay from there to the current frame.
        let cell: usize = (f - w) as usize;
        let rec = self.records.get(cell);
        self.records.set(cell, FrameRecord { local: rec.local, remote: input, confirmed: true });
        proof {
            self.snapshots.lemma_wf();
            lemma_lookup_index(snaps0, f - w);
            t0.lemma_confirm_keeps_before(f as int, input);
        }
        match self.snapshots.load(f) {
            Some(s) => {
                self.state = s;
            },
            None => {
                proof {
                    assert(false);
                }
            },
        }
        self.timeline = Ghost(t1);
        proof {
            let recs1 = self.records@;
            assert forall|i: int| 0 <= i < recs1.len() implies {
                &&& (#[trigger] recs1[i]).local == t1.local[w + i]
                &&& recs1[i].confirmed == t1.confirmed.contains_key(w + i)
                &&& (recs1[i].confirmed ==> recs1[i].remote == t1.confirmed[w + i])
                &&& (w + i < f ==> recs1[i].remote == t1.remote_at(w + i))
            } by {
                if i != cell {
                    assert(recs1[i] == recs0[i]);
                }
            }
        }
        let mut g: Frame = f;
        let mut prev = input;
        while g < n
            invariant
                self.frame == n,
                self.config == old(self).config,
                self.local == old(self).local,
                self.remote == old(self).remote,
                self.phase == old(self).phase,
                self.silent == old(self).silent,
                self.pending == old(self).pending,
                self.confirmed_through == old(self).confirmed_through,
                self.timeline@ == t1,
                t1 == t0.confirm(f as int, input),
                t1.local.len() == n,
                t1.local_first == (self.local.0 == 0),
                w == self@.oldest(),
                w <= f <= g <= n,
                n - w <= self.config.max_rollback,
                self.state == t1.state_at(g as int),
                self.snapshots.wf(),
                self.snapshots.spec_capacity() == self.config.max_rollback + 1,
                snapshots_track(self.snapshots@, t1, w as int, g as int),
                g > f ==> self.snapshots@.len() == g - w + 1,
                self.records.wf(),
                self.records.spec_capacity() == self.config.max_rollback + 1,
                records_track(self.records@, t1, w as int, n as int, g as int),
                g > f ==> prev == t1.remote_at(g - 1),
            decreases n - g,
        {
            let ghost snaps_a = self.snapshots@;
            let ghost recs_a = self.records@;
            proof {
                self.snapshots.lemma_wf();
            }
            // A frame that is not confirmed repeats the input of the frame
            // before, which may have changed by now.
            let at: usize = (g - w) as usize;
            let rec = self.records.get(at);
            let remote = if rec.confirmed {
                rec.remote
            } else {
                prev
            };
            assert(remote == t1.remote_at(g as int));
            self.records.set(at, FrameRecord { local: rec.local, remote, confirmed: rec.confirmed });
            let inputs = self.arrange(g, rec.local, remote);
            assert(inputs == t1.inputs_at(g as int));
            player_movement(&mut self.state, &inputs);
            let now = self.state;
            self.snapshots.save(g + 1, &now);
            proof {
                // The new snapshot supersedes those of the frames after `g`,
                // which stem from the misprediction; those up to `g` stay.
                t1.lemma_state_step(g as int);
                let cap = (self.config.max_rollback + 1) as nat;
                let snap = Snapshot { frame: (g + 1) as u32, state: now };
                lemma_older_than(snaps_a, g + 1);
                let kept = older_than(snaps_a, g + 1);
                assert(snaps_a[g - w].frame == g);
                if kept.len() > g - w + 1 {
                    assert(snaps_a[g - w + 1].frame > snaps_a[g - w].frame);
                    assert(false);
                }
                assert(kept.len() == g - w + 1);
                let snaps_b = self.snapshots@;
                assert(snaps_b == kept.push(snap));
                assert forall|i: int| 0 <= i <= g + 1 - w implies (#[trigger] snaps_b[i]).frame
                    == w + i && snaps_b[i].state == t1.state_at(w + i) by {
                    if i <= g - w {
                        assert(snaps_b[i] == snaps_a[i]);
                    }
                }
                let recs_b = self.records@;
                assert forall|i: int| 0 <= i < recs_b.len() implies {
                    &&& (#[trigger] recs_b[i]).local == t1.local[w + i]
                    &&& recs_b[i].confirmed == t1.confirmed.contains_key(w + i)
                    &&& (recs_b[i].confirmed ==> recs_b[i].remote == t1.confirmed[w + i])
                    &&& (w + i < g + 1 ==> recs_b[i].remote == t1.remote_at(w + i))
                } by {
                    if i != at {
                        assert(recs_b[i] == recs_a[i]);
                    }
                }
            }
            prev = remote;
            g = g + 1;
        }
        self.prev_remote = prev;
        proof {
            let pend = self.pending@;
            assert forall|i: int| 0 <= i < pend.len() implies (#[trigger] pend[i]) == (
            if t1.confirmed.contains_key(n + i) {
                Some(t1.confirmed[n + i])
            } else {
                None
            }) by {
                assert(t1.confirmed.contains_key(n + i) == t0.confirmed.contains_key(n + i));
            }
            assert(self@ =~= (SessionView { timeline: t1, ..old(self)@ }));
        }
    }
}

impl P2PSession {
    /// One whole tick: takes in everything that arrived since the last
    /// tick, in the order given, and then advances as `advance_frame` does.
    /// Returns what became of each arrival, and what the tick did. As for
    /// `advance_frame`, the frame counter must have room for one more frame.
    pub fn tick(&mut self, inbound: &Vec<Vec<u8>>, input: PlayerInputFrame) -> (r: (
        Vec<Received>,
        Tick,
    ))
        requires
            old(self).wf(),
            old(self)@.phase is Running ==> old(self)@.frame < Frame::MAX,
        ensures
            final(self).wf(),
            ({
                let arrivals = Seq::new(inbound@.len(), |i: int| inbound@[i]@);
                let (drained, outcomes) = old(self)@.drain(arrivals);
                &&& r.0@ == outcomes
                &&& (final(self)@, r.1) == drained.advance(input)
            }),
    {
        let ghost arrivals = Seq::new(inbound@.len(), |i: int| inbound@[i]@);
        let mut outcomes: Vec<Received> = Vec::new();
        let mut i: usize = 0;
        while i < inbound.len()
            invariant
                i <= inbound@.len(),
                arrivals == Seq::new(inbound@.len(), |i: int| inbound@[i]@),
                self.wf(),
                self@.phase is Running ==> self@.frame < Frame::MAX,
                (self@, outcomes@) == old(self)@.drain(arrivals.take(i as int)),
            decreases inbound@.len() - i,
        {
            let ghost before = self@;
            let outcome = self.receive(inbound[i].as_slice());
            outcomes.push(outcome);
            proof {
                before.lemma_frame_monotonic(input, arrivals[i as int]);
                assert(arrivals.take(i + 1).drop_last() =~= arrivals.take(i as int));
                assert(arrivals.take(i + 1).last() == arrivals[i as int]);
            }
            i = i + 1;
        }
        proof {
            assert(arrivals.take(i as int) =~= arrivals);
        }
        let tick = self.advance_frame(input);
        (outcomes, tick)
    }
}

/// Sets up the two players of a match on the machine of client `client`
/// and starts their session: the player in the slot with the client's own
/// number is local, the other is remote. Returns the players of slot 0 and
/// slot 1 and the session. A client number that names no slot leaves the
/// match without a local player.
pub fn spawn_players(client: usize, config: BackrollConfig) -> (r: Result<
    (Player, Player, P2PSession),
    SessionError,
>)
    ensures
        client < MAX_PLAYERS ==> r is Ok && r.unwrap().0.handle == PlayerHandle(0)
            && r.unwrap().1.handle == PlayerHandle(1) && r.unwrap().2.wf() && r.unwrap().2@
            == SessionView::initial(
            config,
            PlayerHandle(client as u8),
            other_slot(PlayerHandle(client as u8)),
        ),
        client >= MAX_PLAYERS ==> r == Err::<(Player, Player, P2PSession), SessionError>(
            SessionError::NoLocalPlayer,
        ),
{
    let mut builder = P2PSession::build().with_config(config);
    let first_kind = if client == 0 {
        PlayerKind::Local
    } else {
        PlayerKind::Remote
    };
    let second_kind = if client == 1 {
        PlayerKind::Local
    } else {
        PlayerKind::Remote
    };
    let first = match builder.add_player(first_kind) {
        Ok(handle) => Player { handle },
        Err(e) => {
            return Err(e);
        },
    };
    let second = match builder.add_player(second_kind) {
        Ok(handle) => Player { handle },
        Err(e) => {
            return Err(e);
        },
    };
    proof {
        reveal_with_fuel(local_count, 3);
        let p = builder.players();
        assert(p =~= seq![first_kind, second_kind]);
        assert(p.drop_last() =~= seq![first_kind]);
        assert(p.drop_last().drop_last().len() == 0);
    }
    match builder.start() {
        Ok(session) => Ok((first, second, session)),
        Err(e) => Err(e),
    }
}

} // verus!

//! The session as a state machine over mathematical values.
//!
//! A `SessionView` is what a session is to its host: its phase, its frame,
//! and its timeline. The functions here say how a tick and an arriving
//! message change it and what they report. The executable session refines
//! them.

use vstd::prelude::*;
use crate::input::PlayerInputFrame;
use crate::player::{Frame, GameInput, PlayerHandle};
use crate::state::{run, GameState};
use crate::timeline::{lemma_rollback_replay, Timeline};
use crate::wire::{decoded, Message, MessageKind, WireError};

verus! {

/// The frame from which every session starts.
pub const START_FRAME: Frame = 0;

/// Where a session stands in its life.
#[derive(Clone, Copy, Debug, PartialEq, Eq, Structural)]
pub enum Phase {
    /// The peers are still agreeing on the starting frame; no frame is
    /// simulated.
    Synchronizing,
    /// The steady state: every tick simulates one frame.
    Running,
    /// The session has ended: the peer fell silent, or the peers can no
    /// longer be kept in agreement. No frame is simulated any more.
    Disconnected,
}

/// The settings of a session.
#[derive(Clone, Copy, Debug, PartialEq, Eq, Structural)]
pub struct BackrollConfig {
    /// How many frames back a misprediction can still be corrected. The
    /// session retains one snapshot more than this, and keeps the inputs
    /// that are confirmed ahead of time for as many frames.
    pub max_rollback: u8,
    /// After how many ticks in a row without a message from the peer the
    /// session disconnects.
    pub timeout_ticks: u32,
    /// The remote input that is predicted while none has been confirmed.
    pub default_input: PlayerInputFrame,
    /// How often per second the host ticks the session.
    pub ticks_per_second: u32,
}

impl Default for BackrollConfig {
    fn default() -> (r: Self)
        ensures
            r.max_rollback == 8,
            r.timeout_ticks == 300,
            r.default_input@ == 0,
            r.ticks_per_second == 60,
    {
        BackrollConfig {
            max_rollback: 8,
            timeout_ticks: 300,
            default_input: PlayerInputFrame::empty(),
            ticks_per_second: 60,
        }
    }
}

/// What a tick did.
#[derive(Clone, Copy, Debug, PartialEq, Eq, Structural)]
pub enum Tick {
    /// The handshake is still under way: no frame was simulated, and the
    /// host sends `message` to the peer.
    Handshake { message: Message },
    /// One frame was simulated with `inputs`; the host applies them to its
    /// own entities and sends `message`, the local input of that frame, to
    /// the peer.
    Advanced { inputs: GameInput, message: Message },
    /// The peer has been silent for too long: the session disconnected
    /// with this tick.
    TimedOut,
    /// The session had ended before: nothing was done.
    Closed,
}

/// What became of a message that arrived.
#[derive(Clone, Copy, Debug, PartialEq, Eq, Structural)]
pub enum Received {
    /// The bytes were no message: dropped.
    Malformed(WireError),
    /// The message speaks of a player that is not the remote player of
    /// this session: dropped.
    UnknownPlayer(PlayerHandle),
    /// The session has ended: dropped.
    Closed,
    /// A handshake that proposes another starting frame: dropped.
    StartMismatch,
    /// The handshake is complete: the session runs.
    Synchronized,
    /// A handshake from a peer that this session already runs with: the
    /// peer is alive, nothing else follows.
    Heard,
    /// The input is for a frame older than the oldest retained snapshot,
    /// and not every input up to that frame had been confirmed. The session
    /// can no longer correct that frame and has ended.
    Desynchronized { frame: Frame },
    /// The input of that frame had been confirmed before: dropped.
    Duplicate,
    /// The input is for a frame too far ahead to be kept: dropped.
    TooFarAhead,
    /// The input is for a frame that is yet to be simulated: kept for then.
    Buffered,
    /// The input equals what was predicted for its frame: nothing to redo.
    Confirmed,
    /// The input differs from what was predicted for its frame: the
    /// session went back to `frame` and replayed up to the current frame.
    RolledBack { frame: Frame },
}

/// The first frame from `from` on whose remote input is not confirmed, or
/// `limit` if the inputs of all frames from `from` to `limit - 1` are.
pub open spec fn first_gap(confirmed: Map<int, PlayerInputFrame>, from: int, limit: int) -> int
    decreases limit - from,
{
    if from < limit && confirmed.contains_key(from) {
        first_gap(confirmed, from + 1, limit)
    } else {
        from
    }
}

/// What `first_gap` finds: every frame before it is confirmed, and the
/// frame itself is not, unless it is the limit.
pub proof fn lemma_first_gap(confirmed: Map<int, PlayerInputFrame>, from: int, limit: int)
    requires
        from <= limit,
    ensures
        from <= first_gap(confirmed, from, limit) <= limit,
        forall|g: int| from <= g < first_gap(confirmed, from, limit) ==> confirmed.contains_key(g),
        first_gap(confirmed, from, limit) < limit ==> !confirmed.contains_key(
            first_gap(confirmed, from, limit),
        ),
    decreases limit - from,
{
    if from < limit && confirmed.contains_key(from) {
        lemma_first_gap(confirmed, from + 1, limit);
    }
}

/// A frame that every frame before it is confirmed up to, and that is not
/// confirmed itself or is the limit, is what `first_gap` finds.
pub proof fn lemma_first_gap_is(
    confirmed: Map<int, PlayerInputFrame>,
    from: int,
    limit: int,
    gap: int,
)
    requires
        from <= gap <= limit,
        forall|g: int| from <= g < gap ==> confirmed.contains_key(g),
        gap < limit ==> !confirmed.contains_key(gap),
    ensures
        first_gap(confirmed, from, limit) == gap,
    decreases limit - from,
{
    if from < gap {
        lemma_first_gap_is(confirmed, from + 1, limit, gap);
    }
}

/// A session as its host sees it.
#[verifier::ext_equal]
pub struct SessionView {
    pub config: BackrollConfig,
    /// The handle of the local player.
    pub local: PlayerHandle,
    /// The handle of the remote player.
    pub remote: PlayerHandle,
    pub phase: Phase,
    /// The current frame: the number of frames simulated so far.
    pub frame: int,
    /// The number of ticks since the peer was last heard.
    pub silent: int,
    pub timeline: Timeline,
}

impl SessionView {
    /// A session that has just been started: it is synchronizing at the
    /// starting frame and knows no input yet.
    pub open spec fn initial(config: BackrollConfig, local: PlayerHandle, remote: PlayerHandle) -> SessionView {
        SessionView {
            config,
            local,
            remote,
            phase: Phase::Synchronizing,
            frame: START_FRAME as int,
            silent: 0,
            timeline: Timeline {
                local_first: local.0 == 0,
                default_input: config.default_input,
                local: Seq::empty(),
                confirmed: Map::empty(),
            },
        }
    }

    /// The oldest frame that can still be rolled back to.
    pub open spec fn oldest(self) -> int {
        if self.frame > self.config.max_rollback {
            self.frame - self.config.max_rollback
        } else {
            0
        }
    }

    /// How many frames from the current one on a confirmed input is kept
    /// for.
    pub open spec fn lookahead(self) -> int {
        self.config.max_rollback + 1
    }

    /// The number of frames from frame 0 on whose remote inputs are all
    /// confirmed: the inputs of these frames, and the states up to this
    /// frame, are final.
    pub open spec fn confirmed_through(self) -> int {
        first_gap(self.timeline.confirmed, 0, self.frame + self.lookahead())
    }

    /// The state of the simulation at the current frame.
    pub open spec fn state(self) -> GameState {
        self.timeline.state_at(self.frame)
    }

    /// The handshake message of this session.
    pub open spec fn sync_message(self) -> Message {
        Message {
            kind: MessageKind::Sync,
            player: self.local,
            frame: START_FRAME,
            input: self.config.default_input,
        }
    }

    /// The message that carries the local input of the current frame.
    pub open spec fn input_message(self, input: PlayerInputFrame) -> Message {
        Message { kind: MessageKind::Input, player: self.local, frame: self.frame as u32, input }
    }

    /// The session after one tick with the given local input, and what the
    /// tick reports.
    pub open spec fn advance(self, input: PlayerInputFrame) -> (SessionView, Tick) {
        match self.phase {
            Phase::Synchronizing => (self, Tick::Handshake { message: self.sync_message() }),
            Phase::Disconnected => (self, Tick::Closed),
            Phase::Running => if self.silent >= self.config.timeout_ticks {
                (self.disconnect(), Tick::TimedOut)
            } else {
                (
                    SessionView {
                        frame: self.frame + 1,
                        silent: self.silent + 1,
                        timeline: self.timeline.extend(input),
                        ..self
                    },
                    Tick::Advanced {
                        inputs: self.timeline.extend(input).inputs_at(self.frame),
                        message: self.input_message(input),
                    },
                )
            },
        }
    }

    /// The session after its host has closed it, or after the transport
    /// has reported the peer unreachable.
    pub open spec fn disconnect(self) -> SessionView {
        SessionView { phase: Phase::Disconnected, ..self }
    }

    /// The session after it has heard from its peer.
    pub open spec fn heard(self) -> SessionView {
        SessionView { phase: Phase::Running, silent: 0, ..self }
    }

    /// A running session after the remote input of frame `f` has arrived.
    pub open spec fn confirm_input(self, f: int, input: PlayerInputFrame) -> (
        SessionView,
        Received,
    ) {
        if f < self.oldest() {
            if f < self.confirmed_through() {
                (self, Received::Duplicate)
            } else {
                (self.disconnect(), Received::Desynchronized { frame: f as u32 })
            }
        } else if self.timeline.confirmed.contains_key(f) {
            (self, Received::Duplicate)
        } else if f >= self.frame + self.lookahead() {
            (self, Received::TooFarAhead)
        } else {
            (
                SessionView { timeline: self.timeline.confirm(f, input), ..self },
                if f >= self.frame {
                    Received::Buffered
                } else if input == self.timeline.remote_at(f) {
                    Received::Confirmed
                } else {
                    Received::RolledBack { frame: f as u32 }
                },
            )
        }
    }

    /// The session after a message has arrived, and what became of the
    /// message.
    pub open spec fn receive_message(self, m: Message) -> (SessionView, Received) {
        if m.player != self.remote {
            (self, Received::UnknownPlayer(m.player))
        } else if self.phase is Disconnected {
            (self, Received::Closed)
        } else {
            match m.kind {
                MessageKind::Sync => if self.phase is Running {
                    (SessionView { silent: 0, ..self }, Received::Heard)
                } else if m.frame == START_FRAME {
                    (self.heard(), Received::Synchronized)
                } else {
                    (self, Received::StartMismatch)
                },
                MessageKind::Input => self.heard().confirm_input(m.frame as int, m.input),
            }
        }
    }

    /// The session after bytes have arrived, and what became of them.
    pub open spec fn receive(self, bytes: Seq<u8>) -> (SessionView, Received) {
        match decoded(bytes) {
            Err(e) => (self, Received::Malformed(e)),
            Ok(m) => self.receive_message(m),
        }
    }

    /// The session after the given byte strings have arrived one after the
    /// other, first to last, and what became of each.
    pub open spec fn drain(self, inbound: Seq<Seq<u8>>) -> (SessionView, Seq<Received>)
        decreases inbound.len(),
    {
        if inbound.len() == 0 {
            (self, Seq::empty())
        } else {
            let (before, outcomes) = self.drain(inbound.drop_last());
            let (after, outcome) = before.receive(inbound.last());
            (after, outcomes.push(outcome))
        }
    }

    /// The frame number never goes back, a tick moves it on by at most
    /// one, and an arriving message leaves it as it is.
    pub proof fn lemma_frame_monotonic(self, input: PlayerInputFrame, bytes: Seq<u8>)
        ensures
            self.frame <= self.advance(input).0.frame <= self.frame + 1,
            self.receive(bytes).0.frame == self.frame,
    {
    }

    /// A session that has ended stays as it is whatever arrives and however
    /// often it is ticked.
    pub proof fn lemma_disconnected_is_terminal(self, input: PlayerInputFrame, bytes: Seq<u8>)
        requires
            self.phase is Disconnected,
        ensures
            self.advance(input).0 == self,
            self.receive(bytes).0 == self,
    {
    }

    /// A message that speaks of any player but the remote one changes
    /// nothing.
    pub proof fn lemma_unknown_player_ignored(self, m: Message)
        requires
            m.player != self.remote,
        ensures
            self.receive_message(m) == (self, Received::UnknownPlayer(m.player)),
    {
    }

    /// Rollback correctness: when the input of frame `f` is confirmed in a
    /// running session that still retains that frame, the state of the
    /// session afterwards is the state that the session had at frame `f`,
    /// replayed up to the current frame with the corrected inputs; and
    /// that is the state of a run from frame 0 with the corrected inputs.
    pub proof fn lemma_confirmation_replays(self, f: int, input: PlayerInputFrame)
        requires
            0 <= self.frame,
            self.oldest() <= f < self.frame,
            !self.timeline.confirmed.contains_key(f),
        ensures
            self.confirm_input(f, input).0.frame == self.frame,
            self.confirm_input(f, input).0.timeline == self.timeline.confirm(f, input),
            self.confirm_input(f, input).0.state() == run(
                self.timeline.state_at(f),
                self.timeline.confirm(f, input).inputs(self.frame).skip(f),
            ),
            self.confirm_input(f, input).0.state() == self.timeline.confirm(f, input).state_at(
                self.frame,
            ),
    {
        self.timeline.lemma_confirm_keeps_before(f, input);
        lemma_rollback_replay(self.timeline, self.timeline.confirm(f, input), f, self.frame);
    }

    /// What is confirmed is final: once the remote inputs of all frames
    /// before `g` are confirmed, no input that arrives later changes the
    /// state at frame `g`, nor the input of any frame before it.
    pub proof fn lemma_confirmed_states_are_final(
        self,
        f: int,
        input: PlayerInputFrame,
        g: int,
    )
        requires
            0 <= g <= self.confirmed_through(),
        ensures
            self.confirm_input(f, input).0.timeline.state_at(g) == self.timeline.state_at(g),
            forall|k: int|
                0 <= k < g ==> self.confirm_input(f, input).0.timeline.inputs_at(k)
                    == self.timeline.inputs_at(k),
    {
        if self.confirm_input(f, input).0.timeline != self.timeline {
            lemma_first_gap(self.timeline.confirmed, 0, self.frame + self.lookahead());
            assert(g <= f);
            self.timeline.lemma_confirm_keeps_before(f, input);
        }
    }

    /// Only a rollback changes the state of the simulation: whatever else
    /// becomes of an arriving input, the state stays as it is. In
    /// particular an input that equals the prediction, and an input for
    /// a frame that was confirmed before, at whatever time, change
    /// nothing of it.
    pub proof fn lemma_state_changes_by_rollback_only(self, f: int, input: PlayerInputFrame)
        requires
            0 <= self.frame,
        ensures
            !(self.confirm_input(f, input).1 is RolledBack) ==> self.confirm_input(f, input).0.state()
                == self.state(),
            self.timeline.confirmed.contains_key(f) ==> !(self.confirm_input(f, input).1
                is RolledBack),
            input == self.timeline.remote_at(f) ==> !(self.confirm_input(f, input).1
                is RolledBack),
    {
        let outcome = self.confirm_input(f, input).1;
        if outcome is Buffered {
            self.timeline.lemma_confirm_keeps_before(f, input);
        } else if outcome is Confirmed {
            self.timeline.lemma_confirm_matching_keeps_all(f, input);
        }
    }

    /// Idempotence: a message that arrives a second time changes nothing.
    pub proof fn lemma_receive_idempotent(self, bytes: Seq<u8>)
        ensures
            self.receive(bytes).0.receive(bytes).0 == self.receive(bytes).0,
            self.receive(bytes).0.receive(bytes).0.state() == self.receive(bytes).0.state(),
    {
    }

    /// Order of arrival: two confirmations for different frames lead to
    /// the same session, and so to the same simulation state, in whichever
    /// order they arrive, as long as both frames are within reach of the
    /// session.
    pub proof fn lemma_confirmations_commute(
        self,
        f1: int,
        input1: PlayerInputFrame,
        f2: int,
        input2: PlayerInputFrame,
    )
        requires
            f1 != f2,
            self.oldest() <= f1 < self.frame + self.lookahead(),
            self.oldest() <= f2 < self.frame + self.lookahead(),
        ensures
            self.confirm_input(f1, input1).0.confirm_input(f2, input2).0 == self.confirm_input(
                f2,
                input2,
            ).0.confirm_input(f1, input1).0,
            self.confirm_input(f1, input1).0.confirm_input(f2, input2).0.state()
                == self.confirm_input(f2, input2).0.confirm_input(f1, input1).0.state(),
    {
        let a = self.confirm_input(f1, input1).0.confirm_input(f2, input2).0;
        let b = self.confirm_input(f2, input2).0.confirm_input(f1, input1).0;
        assert(a.timeline.confirmed =~= b.timeline.confirmed);
    }
}

} // verus!

//! What one peer knows of the inputs of a session, and the simulation that
//! follows from it.
//!
//! A timeline is a mathematical value: the local inputs of every frame so
//! far, and the remote inputs that have been confirmed. From it follow the
//! remote input that the peer uses for each frame (the confirmed one, or
//! else a prediction) and the state of the simulation at each frame.

use vstd::prelude::*;
use crate::input::PlayerInputFrame;
use crate::player::GameInput;
use crate::state::{lemma_run_split, run, step, GameState};

verus! {

/// One peer's knowledge of the inputs of both players.
#[verifier::ext_equal]
pub struct Timeline {
    /// Whether the local player sits in slot 0.
    pub local_first: bool,
    /// The remote input that is predicted while none has been confirmed.
    pub default_input: PlayerInputFrame,
    /// The local input of every frame so far, frame 0 first.
    pub local: Seq<PlayerInputFrame>,
    /// The confirmed remote inputs, by frame.
    pub confirmed: Map<int, PlayerInputFrame>,
}

impl Timeline {
    /// The remote input that the peer uses for frame `f`: the confirmed
    /// input of that frame, or else a repetition of the input used for the
    /// frame before; before frame 0, the default.
    pub open spec fn remote_at(self, f: int) -> PlayerInputFrame
        decreases f + 1,
    {
        if f < 0 {
            self.default_input
        } else if self.confirmed.contains_key(f) {
            self.confirmed[f]
        } else {
            self.remote_at(f - 1)
        }
    }

    /// Both players' inputs for frame `f`, each in its slot.
    pub open spec fn inputs_at(self, f: int) -> GameInput {
        GameInput {
            frame: f as u32,
            first: if self.local_first {
                self.local[f]
            } else {
                self.remote_at(f)
            },
            second: if self.local_first {
                self.remote_at(f)
            } else {
                self.local[f]
            },
        }
    }

    /// The inputs of frames 0 to `n - 1`, in frame order.
    pub open spec fn inputs(self, n: int) -> Seq<GameInput> {
        Seq::new(n as nat, |f: int| self.inputs_at(f))
    }

    /// The state of the simulation at the start of frame `n`: the starting
    /// state after the inputs of frames 0 to `n - 1`, applied in frame order.
    pub open spec fn state_at(self, n: int) -> GameState {
        run(GameState::initial(), self.inputs(n))
    }

    /// The timeline after the local input of the next frame is known.
    pub open spec fn extend(self, input: PlayerInputFrame) -> Timeline {
        Timeline { local: self.local.push(input), ..self }
    }

    /// The timeline after the remote input of frame `f` is confirmed.
    pub open spec fn confirm(self, f: int, input: PlayerInputFrame) -> Timeline {
        Timeline { confirmed: self.confirmed.insert(f, input), ..self }
    }

    /// A confirmation leaves the remote inputs of all earlier frames as they
    /// were.
    pub proof fn lemma_confirm_keeps_earlier(self, f: int, input: PlayerInputFrame, g: int)
        requires
            g < f,
        ensures
            self.confirm(f, input).remote_at(g) == self.remote_at(g),
        decreases g + 1,
    {
        if g >= 0 {
            self.lemma_confirm_keeps_earlier(f, input, g - 1);
        }
    }

    /// A confirmation that equals the prediction changes the remote input of
    /// no frame.
    pub proof fn lemma_confirm_matching(self, f: int, input: PlayerInputFrame, g: int)
        requires
            0 <= f,
            input == self.remote_at(f),
        ensures
            self.confirm(f, input).remote_at(g) == self.remote_at(g),
        decreases g + 1,
    {
        if g >= 0 {
            self.lemma_confirm_matching(f, input, g - 1);
        }
    }

    /// A further local input changes no remote input.
    pub proof fn lemma_extend_keeps_remote(self, input: PlayerInputFrame, f: int)
        ensures
            self.extend(input).remote_at(f) == self.remote_at(f),
        decreases f + 1,
    {
        if f >= 0 {
            self.lemma_extend_keeps_remote(input, f - 1);
        }
    }

    /// A further local input leaves every remote input, and the inputs and
    /// states of all frames so far, as they were.
    pub proof fn lemma_extend_keeps_all(self, input: PlayerInputFrame)
        ensures
            forall|f: int| (#[trigger] self.extend(input).remote_at(f)) == self.remote_at(f),
            forall|f: int|
                0 <= f < self.local.len() ==> (#[trigger] self.extend(input).inputs_at(f))
                    == self.inputs_at(f),
            forall|f: int|
                0 <= f <= self.local.len() ==> (#[trigger] self.extend(input).state_at(f))
                    == self.state_at(f),
    {
        let next = self.extend(input);
        assert forall|f: int| (#[trigger] next.remote_at(f)) == self.remote_at(f) by {
            self.lemma_extend_keeps_remote(input, f);
        }
        assert forall|f: int| 0 <= f <= self.local.len() implies (#[trigger] next.state_at(f))
            == self.state_at(f) by {
            next.lemma_same_inputs_same_state(self, f);
        }
    }

    /// A confirmation for frame `k` leaves the remote inputs and the inputs
    /// of all frames before `k`, and the states of all frames up to `k`, as
    /// they were.
    pub proof fn lemma_confirm_keeps_before(self, k: int, input: PlayerInputFrame)
        ensures
            forall|f: int| f < k ==> (#[trigger] self.confirm(k, input).remote_at(f)) == self.remote_at(f),
            forall|f: int|
                0 <= f < k ==> (#[trigger] self.confirm(k, input).inputs_at(f)) == self.inputs_at(
                    f,
                ),
            forall|f: int|
                0 <= f <= k ==> (#[trigger] self.confirm(k, input).state_at(f)) == self.state_at(f),
    {
        let next = self.confirm(k, input);
        assert forall|f: int| f < k implies (#[trigger] next.remote_at(f)) == self.remote_at(f) by {
            self.lemma_confirm_keeps_earlier(k, input, f);
        }
        assert forall|f: int| 0 <= f <= k implies (#[trigger] next.state_at(f)) == self.state_at(
            f,
        ) by {
            next.lemma_same_inputs_same_state(self, f);
        }
    }

    /// A confirmation that equals the prediction leaves the inputs and the
    /// state of every frame as they were.
    pub proof fn lemma_confirm_matching_keeps_all(self, k: int, input: PlayerInputFrame)
        requires
            0 <= k,
            input == self.remote_at(k),
        ensures
            forall|f: int| (#[trigger] self.confirm(k, input).remote_at(f)) == self.remote_at(f),
            forall|f: int|
                0 <= f ==> (#[trigger] self.confirm(k, input).inputs_at(f)) == self.inputs_at(f),
            forall|f: int|
                0 <= f ==> (#[trigger] self.confirm(k, input).state_at(f)) == self.state_at(f),
    {
        let next = self.confirm(k, input);
        assert forall|f: int| (#[trigger] next.remote_at(f)) == self.remote_at(f) by {
            self.lemma_confirm_matching(k, input, f);
        }
        assert forall|f: int| 0 <= f implies (#[trigger] next.state_at(f)) == self.state_at(f) by {
            next.lemma_same_inputs_same_state(self, f);
        }
    }

    /// Order of application: the inputs that lead to the state at frame `n`
    /// are those of the frames 0 to `n - 1`, each once, in frame order.
    pub proof fn lemma_inputs_in_frame_order(self, n: int)
        requires
            0 <= n <= u32::MAX,
        ensures
            self.inputs(n).len() == n,
            forall|f: int| 0 <= f < n ==> (#[trigger] self.inputs(n)[f]).frame == f,
            forall|f: int| 0 <= f < n ==> (#[trigger] self.inputs(n)[f]) == self.inputs_at(f),
    {
    }

    /// One frame on: the state at frame `n + 1` is the state at frame `n`
    /// after the inputs of frame `n`.
    pub proof fn lemma_state_step(self, n: int)
        requires
            0 <= n,
        ensures
            self.state_at(n + 1) == step(self.state_at(n), self.inputs_at(n)),
    {
        assert(self.inputs(n + 1).drop_last() =~= self.inputs(n));
    }

    /// Two timelines that agree on the inputs of the first `n` frames agree
    /// on the state at frame `n`.
    pub proof fn lemma_same_inputs_same_state(self, other: Timeline, n: int)
        requires
            0 <= n,
            forall|f: int| 0 <= f < n ==> self.inputs_at(f) == other.inputs_at(f),
        ensures
            self.state_at(n) == other.state_at(n),
    {
        assert(self.inputs(n) =~= other.inputs(n));
    }
}

/// Determinism across peers: two peers that sit in different slots, and of
/// which each has had the other's inputs of the first `n` frames confirmed,
/// compute the same state at frame `n`.
pub proof fn lemma_peers_agree(a: Timeline, b: Timeline, n: int)
    requires
        0 <= n,
        a.local_first != b.local_first,
        forall|f: int|
            0 <= f < n ==> a.confirmed.contains_key(f) && a.confirmed[f] == b.local[f],
        forall|f: int|
            0 <= f < n ==> b.confirmed.contains_key(f) && b.confirmed[f] == a.local[f],
    ensures
        a.state_at(n) == b.state_at(n),
{
    a.lemma_same_inputs_same_state(b, n);
}

/// Rollback correctness: let a prediction have failed at frame `k`, so that
/// the timeline `before` and the corrected timeline `after` agree on the
/// inputs of the frames before `k` only. Restoring the state that `before`
/// had at frame `k` and replaying the frames `k` to `n - 1` with the
/// corrected inputs gives the state that a run from frame 0 with the
/// corrected inputs gives.
pub proof fn lemma_rollback_replay(before: Timeline, after: Timeline, k: int, n: int)
    requires
        0 <= k <= n,
        forall|f: int| 0 <= f < k ==> before.inputs_at(f) == after.inputs_at(f),
    ensures
        run(before.state_at(k), after.inputs(n).skip(k)) == after.state_at(n),
{
    before.lemma_same_inputs_same_state(after, k);
    lemma_run_split(GameState::initial(), after.inputs(n), k);
    assert(after.inputs(n).take(k) =~= after.inputs(k));
}

} // verus!

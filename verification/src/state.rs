//! The simulation state and its one-frame step.

use vstd::prelude::*;
use crate::input::{PlayerInputFrame, DOWN_BITS, LEFT_BITS, RIGHT_BITS, UP_BITS};
use crate::player::GameInput;

verus! {

/// How far a pressed direction moves a player in one frame.
pub const MOVE_STEP: i32 = 2;

/// Where a player stands on the integer grid.
#[derive(Clone, Copy, Debug, PartialEq, Eq, Hash, Structural)]
pub struct Position {
    pub x: i32,
    pub y: i32,
}

/// The whole simulation state of one frame: the positions of both players.
///
/// The state holds nothing else and refers to nothing outside itself, so a
/// copy of it is a complete snapshot.
#[derive(Clone, Copy, Debug, PartialEq, Eq, Hash, Structural)]
pub struct GameState {
    /// The player in slot 0.
    pub first: Position,
    /// The player in slot 1.
    pub second: Position,
}

/// `v`, held within the range of a coordinate.
pub open spec fn clamp_coordinate(v: int) -> i32 {
    if v < i32::MIN {
        i32::MIN
    } else if v > i32::MAX {
        i32::MAX
    } else {
        v as i32
    }
}

/// The net horizontal displacement that an input asks for.
pub open spec fn delta_x(input: PlayerInputFrame) -> int {
    (if input.has(RIGHT_BITS) { MOVE_STEP as int } else { 0 })
        - (if input.has(LEFT_BITS) { MOVE_STEP as int } else { 0 })
}

/// The net vertical displacement that an input asks for.
pub open spec fn delta_y(input: PlayerInputFrame) -> int {
    (if input.has(UP_BITS) { MOVE_STEP as int } else { 0 })
        - (if input.has(DOWN_BITS) { MOVE_STEP as int } else { 0 })
}

/// A position after one frame under the given input. A coordinate that
/// would leave the grid stays at its edge.
pub open spec fn moved(p: Position, input: PlayerInputFrame) -> Position {
    Position {
        x: clamp_coordinate(p.x + delta_x(input)),
        y: clamp_coordinate(p.y + delta_y(input)),
    }
}

/// The state after one frame under the given inputs.
pub open spec fn step(s: GameState, inputs: GameInput) -> GameState {
    GameState { first: moved(s.first, inputs.first), second: moved(s.second, inputs.second) }
}

/// The state after applying a sequence of frame inputs, first to last.
pub open spec fn run(s: GameState, inputs: Seq<GameInput>) -> GameState
    decreases inputs.len(),
{
    if inputs.len() == 0 {
        s
    } else {
        step(run(s, inputs.drop_last()), inputs.last())
    }
}

fn clamped_sum(v: i32, delta: i32) -> (r: i32)
    requires
        -4 <= delta <= 4,
    ensures
        r == clamp_coordinate(v + delta),
{
    let wide: i64 = v as i64 + delta as i64;
    if wide < i32::MIN as i64 {
        i32::MIN
    } else if wide > i32::MAX as i64 {
        i32::MAX
    } else {
        wide as i32
    }
}

impl Position {
    /// The position after one frame under the given input.
    pub fn advance(self, input: PlayerInputFrame) -> (r: Position)
        ensures
            r == moved(self, input),
    {
        let mut dx: i32 = 0;
        let mut dy: i32 = 0;
        if input.contains(PlayerInputFrame::left()) {
            dx = dx - MOVE_STEP;
        }
        if input.contains(PlayerInputFrame::right()) {
            dx = dx + MOVE_STEP;
        }
        if input.contains(PlayerInputFrame::down()) {
            dy = dy - MOVE_STEP;
        }
        if input.contains(PlayerInputFrame::up()) {
            dy = dy + MOVE_STEP;
        }
        Position { x: clamped_sum(self.x, dx), y: clamped_sum(self.y, dy) }
    }
}

impl GameState {
    /// The state in which every session starts: both players at the origin.
    pub open spec fn initial() -> GameState {
        GameState { first: Position { x: 0, y: 0 }, second: Position { x: 0, y: 0 } }
    }

    /// The starting state.
    pub fn new() -> (r: GameState)
        ensures
            r == GameState::initial(),
    {
        GameState { first: Position { x: 0, y: 0 }, second: Position { x: 0, y: 0 } }
    }
}

/// Advances the state by one frame: each player moves as its input asks.
pub fn player_movement(state: &mut GameState, inputs: &GameInput)
    ensures
        *final(state) == step(*old(state), *inputs),
{
    state.first = state.first.advance(inputs.first);
    state.second = state.second.advance(inputs.second);
}

/// Replays a sequence of frame inputs, first to last, on the state.
pub fn replay(state: &mut GameState, inputs: &[GameInput])
    ensures
        *final(state) == run(*old(state), inputs@),
{
    let mut i: usize = 0;
    while i < inputs.len()
        invariant
            i <= inputs@.len(),
            *state == run(*old(state), inputs@.take(i as int)),
        decreases inputs@.len() - i,
    {
        proof {
            assert(inputs@.take(i + 1).drop_last() =~= inputs@.take(i as int));
        }
        player_movement(state, &inputs[i]);
        i = i + 1;
    }
    proof {
        assert(inputs@.take(i as int) =~= inputs@);
    }
}

/// Captures the whole state as a value of its own.
pub fn save_world(state: &GameState) -> (r: GameState)
    ensures
        r == *state,
{
    *state
}

/// Restores a captured state exactly.
pub fn load_world(state: &mut GameState, saved: GameState)
    ensures
        *final(state) == saved,
{
    *state = saved;
}

/// Applying equal input sequences to equal states gives equal states.
pub proof fn lemma_run_deterministic(a: GameState, b: GameState, xs: Seq<GameInput>, ys: Seq<GameInput>)
    requires
        a == b,
        xs.len() == ys.len(),
        forall|i: int| 0 <= i < xs.len() ==> xs[i] == ys[i],
    ensures
        run(a, xs) == run(b, ys),
{
    assert(xs =~= ys);
}

/// Running a sequence equals running a prefix of it and then the rest from
/// the state that the prefix reached.
pub proof fn lemma_run_split(s: GameState, inputs: Seq<GameInput>, k: int)
    requires
        0 <= k <= inputs.len(),
    ensures
        run(s, inputs) == run(run(s, inputs.take(k)), inputs.skip(k)),
    decreases inputs.len(),
{
    if k == inputs.len() {
        assert(inputs.take(k) =~= inputs);
        assert(inputs.skip(k).len() == 0);
    } else {
        let shorter = inputs.drop_last();
        lemma_run_split(s, shorter, k);
        assert(shorter.take(k) =~= inputs.take(k));
        assert(inputs.skip(k).drop_last() =~= shorter.skip(k));
        assert(inputs.skip(k).last() == inputs.last());
    }
}

} // verus!

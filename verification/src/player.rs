//! Player slots, their roles, and the per-frame view of both players' inputs.

use vstd::prelude::*;
use crate::input::PlayerInputFrame;

verus! {

/// The number of players that a session binds: one local and one remote.
pub const MAX_PLAYERS: usize = 2;

/// The simulation tick.
pub type Frame = u32;

/// Identifies a player slot within a session.
///
/// Handles are assigned when players are registered, in order, starting at
/// zero, and stay fixed for the lifetime of the session.
#[derive(Clone, Copy, Debug, PartialEq, Eq, Hash, Structural)]
pub struct PlayerHandle(pub u8);

/// On which side of the network a player sits.
#[derive(Clone, Copy, Debug, PartialEq, Eq, Hash, Structural)]
pub enum PlayerKind {
    /// The player whose input is sampled on this machine.
    Local,
    /// The player whose input arrives over the network.
    Remote,
}

/// A player entity of the host: it carries the handle under which the
/// session reports that player's input.
#[derive(Clone, Copy, Debug, PartialEq, Eq, Hash, Structural)]
pub struct Player {
    pub handle: PlayerHandle,
}

/// What a session operation can refuse.
#[derive(Clone, Copy, Debug, PartialEq, Eq, Structural)]
pub enum SessionError {
    /// More players were registered than a session supports.
    TooManyPlayers,
    /// No local player was registered.
    NoLocalPlayer,
    /// More than one local player was registered.
    MultipleLocalPlayers,
    /// No remote player was registered.
    NoRemotePlayer,
    /// The handle names no player slot.
    InvalidPlayer(PlayerHandle),
}

/// The inputs of both players for one frame.
#[derive(Clone, Copy, Debug, PartialEq, Eq, Structural)]
pub struct GameInput {
    /// The frame that the inputs belong to.
    pub frame: Frame,
    /// The input of the player in slot 0.
    pub first: PlayerInputFrame,
    /// The input of the player in slot 1.
    pub second: PlayerInputFrame,
}

impl GameInput {
    /// The input of the player in the given slot.
    pub open spec fn of(self, handle: PlayerHandle) -> PlayerInputFrame {
        if handle.0 == 0 {
            self.first
        } else {
            self.second
        }
    }

    /// The input of the given player, or `InvalidPlayer` if the handle names
    /// no slot.
    pub fn get(&self, handle: PlayerHandle) -> (r: Result<PlayerInputFrame, SessionError>)
        ensures
            handle.0 < MAX_PLAYERS ==> r == Ok::<PlayerInputFrame, SessionError>(self.of(handle)),
            handle.0 >= MAX_PLAYERS ==> r == Err::<PlayerInputFrame, SessionError>(
                SessionError::InvalidPlayer(handle),
            ),
    {
        if handle.0 == 0 {
            Ok(self.first)
        } else if handle.0 == 1 {
            Ok(self.second)
        } else {
            Err(SessionError::InvalidPlayer(handle))
        }
    }
}

} // verus!

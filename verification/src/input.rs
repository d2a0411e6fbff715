//! The per-frame input of one player: four direction flags packed in a `u32`.

use vstd::prelude::*;
use crate::player::PlayerHandle;

verus! {

/// Bit of the "up" flag.
pub const UP_BITS: u32 = 1;

/// Bit of the "down" flag.
pub const DOWN_BITS: u32 = 2;

/// Bit of the "left" flag.
pub const LEFT_BITS: u32 = 4;

/// Bit of the "right" flag.
pub const RIGHT_BITS: u32 = 8;

/// Every bit that carries a flag; all other bits are reserved and zero.
pub const ALL_BITS: u32 = 15;

/// One player's action for one simulation frame.
///
/// A plain value: it is compared, hashed and sent over the network as the
/// integer given by its view.
#[derive(Clone, Copy, Debug, PartialEq, Eq, Hash, Structural)]
pub struct PlayerInputFrame {
    bits: u32,
}

impl View for PlayerInputFrame {
    type V = u32;

    closed spec fn view(&self) -> u32 {
        self.bits
    }
}

/// The state of the four direction keys at the moment of sampling.
#[derive(Clone, Copy, Debug, PartialEq, Eq, Structural)]
pub struct KeyState {
    pub left: bool,
    pub right: bool,
    pub up: bool,
    pub down: bool,
}

/// The horizontal flag that a key state yields: left wins over right.
pub open spec fn horizontal_bits(keys: KeyState) -> u32 {
    if keys.left {
        LEFT_BITS
    } else if keys.right {
        RIGHT_BITS
    } else {
        0
    }
}

/// The vertical flag that a key state yields: up wins over down.
pub open spec fn vertical_bits(keys: KeyState) -> u32 {
    if keys.up {
        UP_BITS
    } else if keys.down {
        DOWN_BITS
    } else {
        0
    }
}

/// The input value that a key state yields.
pub open spec fn sampled_bits(keys: KeyState) -> u32 {
    (horizontal_bits(keys) + vertical_bits(keys)) as u32
}

impl PlayerInputFrame {
    /// No reserved bit is set.
    pub open spec fn wf(self) -> bool {
        self@ <= ALL_BITS
    }

    /// Whether every bit of `flags` is set in this value.
    pub open spec fn has(self, flags: u32) -> bool {
        self@ & flags == flags
    }

    /// The input whose bits are `bits`.
    pub closed spec fn with_bits(bits: u32) -> Self {
        PlayerInputFrame { bits }
    }

    /// An input is determined by its bits.
    pub proof fn lemma_with_bits(bits: u32, input: Self)
        ensures
            Self::with_bits(bits)@ == bits,
            Self::with_bits(input@) == input,
    {
    }

    /// The input with no flag set.
    pub fn empty() -> (r: Self)
        ensures
            r@ == 0,
            r.wf(),
    {
        PlayerInputFrame { bits: 0 }
    }

    /// The "up" flag alone.
    pub fn up() -> (r: Self)
        ensures
            r@ == UP_BITS,
            r.wf(),
    {
        PlayerInputFrame { bits: UP_BITS }
    }

    /// The "down" flag alone.
    pub fn down() -> (r: Self)
        ensures
            r@ == DOWN_BITS,
            r.wf(),
    {
        PlayerInputFrame { bits: DOWN_BITS }
    }

    /// The "left" flag alone.
    pub fn left() -> (r: Self)
        ensures
            r@ == LEFT_BITS,
            r.wf(),
    {
        PlayerInputFrame { bits: LEFT_BITS }
    }

    /// The "right" flag alone.
    pub fn right() -> (r: Self)
        ensures
            r@ == RIGHT_BITS,
            r.wf(),
    {
        PlayerInputFrame { bits: RIGHT_BITS }
    }

    /// The value as an integer, as it goes on the wire.
    pub fn bits(&self) -> (r: u32)
        ensures
            r == self@,
    {
        self.bits
    }

    /// The input with exactly the given bits, unless a reserved bit is set.
    pub fn from_bits(bits: u32) -> (r: Option<Self>)
        ensures
            bits <= ALL_BITS ==> r == Some(Self::with_bits(bits)),
            bits > ALL_BITS ==> r is None,
    {
        if bits <= ALL_BITS {
            Some(PlayerInputFrame { bits })
        } else {
            None
        }
    }

    /// Whether no flag is set.
    pub fn is_empty(&self) -> (r: bool)
        ensures
            r == (self@ == 0),
    {
        self.bits == 0
    }

    /// Whether every flag of `other` is set in this value.
    pub fn contains(&self, other: Self) -> (r: bool)
        ensures
            r == self.has(other@),
    {
        self.bits & other.bits == other.bits
    }

    /// Sets every flag of `other` in this value.
    pub fn insert(&mut self, other: Self)
        ensures
            final(self)@ == old(self)@ | other@,
            old(self).wf() && other.wf() ==> final(self).wf(),
    {
        let a: u32 = self.bits;
        let b: u32 = other.bits;
        assert(a <= 15 && b <= 15 ==> (a | b) <= 15) by (bit_vector);
        self.bits = a | b;
    }
}

impl Default for PlayerInputFrame {
    fn default() -> (r: Self)
        ensures
            r@ == 0,
            r.wf(),
    {
        PlayerInputFrame::empty()
    }
}

/// Samples the local player's input from the state of the keys.
///
/// Opposite keys do not cancel: left wins over right and up wins over down.
/// The result depends on the key state alone.
pub fn sample_input(handle: PlayerHandle, keys: &KeyState) -> (r: PlayerInputFrame)
    ensures
        r@ == sampled_bits(*keys),
        r.wf(),
{
    let mut local_input = PlayerInputFrame::empty();
    if keys.left {
        local_input.insert(PlayerInputFrame::left());
    } else if keys.right {
        local_input.insert(PlayerInputFrame::right());
    }
    let ghost h = local_input@;
    if keys.up {
        local_input.insert(PlayerInputFrame::up());
    } else if keys.down {
        local_input.insert(PlayerInputFrame::down());
    }
    proof {
        assert(0u32 | 4u32 == 4u32) by (bit_vector);
        assert(0u32 | 8u32 == 8u32) by (bit_vector);
        assert(h == horizontal_bits(*keys));
        assert((h == 0 || h == 4 || h == 8) ==> (h | 1u32) == h + 1 && (h | 2u32) == h + 2)
            by (bit_vector);
    }
    local_input
}

} // verus!
